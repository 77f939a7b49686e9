//! The transpiler core: a single forward pass over one parsed module,
//! lowering each construct to target source text or stopping at the first
//! lowering error.
//!
//! Scoping: `var` and function declarations hoist to the enclosing function
//! (or module) scope and are emitted as undefined-initialized declarations
//! at its head; `let`/`const` are registered per block and a reference
//! before the textual declaration is a temporal-order violation. Identifier
//! resolution walks the scopes innermost-out, then the global bindings
//! registry, and fails fast otherwise.
//!
//! Bindings lower to `JSBox`, the runtime's shared, reference-counted cell
//! of one `JSValue`: a closure captures the handles by value, so an
//! assignment through `set` reaches the one shared binding and captured
//! variables outlive the frame.
//!
//! Exceptions: one strategy is fixed per run. With native exceptions the
//! lowering uses `throw`/`try`/`catch` of the target, and a `finally` body
//! runs on the normal path and, through a catch-all rethrow, on the
//! exceptional path. Without them, each `try` allocates an error slot and
//! a pair of labels, and `throw` becomes an assignment and a jump, so the
//! emitted text holds no native exception construct; a `throw` with no
//! enclosing `try` in the same function cannot be represented then, and is
//! a lowering error. In both modes, a `return`, `throw`, or labeled (or
//! unshielded) `break`/`continue` inside a `try` or `catch` body that
//! carries a non-empty `finally` would leave without running it, so it is
//! a lowering error rather than a silent deviation.

use vstd::prelude::*;
use crate::ast::{DeclKind, Expr, Module, Stmt, expr_height, exprs_height, stmt_height, stmts_height, lemma_stmts_height, lemma_exprs_height};
use crate::globals::{find_global, GlobalBinding, GlobalRegistry};
use crate::manifest::{mangled, escaped, mangle_str, escape_str, PropertyManifest};
use crate::value::{BinOp, int_text, dec_digits, i64_to_string, u64_to_string};
use crate::CompileError;

verus! {

/// The mathematical image of a lowering error: the same kinds, with the
/// diagnostic payload abstracted to a sequence of characters.
pub enum GErr {
    Unsupported(Seq<char>),
    Unresolved(Seq<char>),
    Tdz(Seq<char>),
    UnknownProp(Seq<char>),
}

/// The image of a `CompileError` raised by lowering.
pub open spec fn err_view(e: CompileError) -> GErr {
    match e {
        CompileError::UnsupportedConstruct(s) => GErr::Unsupported(s@),
        CompileError::UnresolvedIdentifier(s) => GErr::Unresolved(s@),
        CompileError::TemporalOrderViolation(s) => GErr::Tdz(s@),
        CompileError::UnknownProperty(s) => GErr::UnknownProp(s@),
        CompileError::DuplicateBindingName => GErr::Unsupported(Seq::empty()),
        CompileError::ManifestMalformed => GErr::Unsupported(Seq::empty()),
    }
}

/// One scope entry: a binding name, pending until its textual declaration
/// where it is block-scoped.
pub struct GEntry {
    pub name: Seq<char>,
    pub pending: bool,
}

/// One lexical scope of the image.
#[verifier::ext_equal]
pub struct GScope {
    pub is_fn: bool,
    pub entries: Seq<GEntry>,
}

/// The image of the mutable lowering state.
#[verifier::ext_equal]
pub struct GCx {
    pub scopes: Seq<GScope>,
    pub counter: u64,
    pub loop_depth: u64,
    pub labels: Seq<Seq<char>>,
    pub trys: Seq<u64>,
    pub in_function: bool,
}

/// The image of the per-run configuration.
#[verifier::ext_equal]
pub struct GCfg {
    pub exceptions: bool,
    pub globals: Seq<GlobalBinding>,
    pub manifest_present: bool,
    pub manifest: Seq<Seq<char>>,
}

struct Entry {
    name: String,
    pending: bool,
}

impl Entry {
    spec fn gview(&self) -> GEntry {
        GEntry { name: self.name@, pending: self.pending }
    }
}

struct Scope {
    is_fn: bool,
    entries: Vec<Entry>,
}

impl Scope {
    spec fn gview(&self) -> GScope {
        GScope { is_fn: self.is_fn, entries: self.entries@.map_values(|e: Entry| e.gview()) }
    }
}

/// The mutable lowering state threaded through one pass.
pub struct Cx {
    scopes: Vec<Scope>,
    counter: u64,
    loop_depth: u64,
    labels: Vec<String>,
    trys: Vec<u64>,
    in_function: bool,
}

impl Cx {
    pub closed spec fn gcx(&self) -> GCx {
        GCx {
            scopes: self.scopes@.map_values(|s: Scope| s.gview()),
            counter: self.counter,
            loop_depth: self.loop_depth,
            labels: self.labels@.map_values(|l: String| l@),
            trys: self.trys@,
            in_function: self.in_function,
        }
    }
}

/// The generated identifier of a binding.
pub open spec fn local_name(x: Seq<char>) -> Seq<char> {
    "js_"@ + mangled(x)
}

/// The generated pair of labels of a labeled loop.
pub open spec fn label_name(l: Seq<char>) -> Seq<char> {
    "lbl_"@ + mangled(l)
}

/// Searches the entries of one scope, innermost binding first.
pub open spec fn find_entry(es: Seq<GEntry>, j: int, x: Seq<char>) -> Option<bool>
    decreases j,
{
    if j <= 0 {
        None
    } else if es[j - 1].name == x {
        Some(es[j - 1].pending)
    } else {
        find_entry(es, j - 1, x)
    }
}

/// Resolves `x` against the scope stack, innermost scope first: the result
/// is whether the binding found is still pending.
pub open spec fn resolve_scopes(scopes: Seq<GScope>, j: int, x: Seq<char>) -> Option<bool>
    decreases j,
{
    if j <= 0 {
        None
    } else {
        match find_entry(scopes[j - 1].entries, scopes[j - 1].entries.len() as int, x) {
            Some(p) => Some(p),
            None => resolve_scopes(scopes, j - 1, x),
        }
    }
}

/// What an identifier lowers to.
pub enum GResolved {
    Local,
    Pending,
    Global(Seq<char>),
    Missing,
}

/// Identifier resolution: scopes innermost-out, then the registry.
pub open spec fn s_resolve(cfg: GCfg, cx: GCx, x: Seq<char>) -> GResolved {
    match resolve_scopes(cx.scopes, cx.scopes.len() as int, x) {
        Some(true) => GResolved::Pending,
        Some(false) => GResolved::Local,
        None => match find_global(cfg.globals, 0, x) {
            Some(code) => GResolved::Global(code),
            None => GResolved::Missing,
        },
    }
}

fn find_entry_exec(es: &Vec<Entry>, x: &String) -> (r: Option<bool>)
    ensures
        r == find_entry(es@.map_values(|e: Entry| e.gview()), es@.len() as int, x@),
{
    let ghost ges = es@.map_values(|e: Entry| e.gview());
    let n = es.len();
    let mut j = n;
    while j > 0
        invariant
            0 <= j <= n,
            n == es@.len(),
            find_entry(ges, n as int, x@) == find_entry(ges, j as int, x@),
            ges == es@.map_values(|e: Entry| e.gview()),
        decreases j,
    {
        if es[j - 1].name == *x {
            proof {
                assert(ges[j - 1].name == x@);
            }
            return Some(es[j - 1].pending);
        }
        proof {
            assert(ges[j - 1].name != x@);
        }
        j = j - 1;
    }
    None
}

fn resolve_exec(cfg: &Transpiler, cx: &Cx, x: &String) -> (r: Option<Result<String, bool>>)
    ensures
        match r {
            Some(Ok(code)) => s_resolve(cfg.gcfg(), cx.gcx(), x@) == GResolved::Global(code@),
            Some(Err(pending)) => (pending ==> s_resolve(cfg.gcfg(), cx.gcx(), x@)
                == GResolved::Pending) && (!pending ==> s_resolve(cfg.gcfg(), cx.gcx(), x@)
                == GResolved::Local),
            None => s_resolve(cfg.gcfg(), cx.gcx(), x@) == GResolved::Missing,
        },
{
    let ghost gscopes = cx.gcx().scopes;
    let n = cx.scopes.len();
    let mut j = n;
    while j > 0
        invariant
            0 <= j <= n,
            n == cx.scopes@.len(),
            gscopes == cx.gcx().scopes,
            gscopes.len() == n,
            resolve_scopes(gscopes, n as int, x@) == resolve_scopes(gscopes, j as int, x@),
        decreases j,
    {
        proof {
            assert(gscopes[j - 1] == cx.scopes@[j - 1].gview());
        }
        match find_entry_exec(&cx.scopes[j - 1].entries, x) {
            Some(p) => {
                return Some(Err(p));
            },
            None => {},
        }
        j = j - 1;
    }
    match cfg.globals.lookup_fragment(x) {
        Some(code) => Some(Ok(code)),
        None => None,
    }
}

/// The pending (`let`/`const`) entries a block registers on entry.
pub open spec fn pend_entries(ss: Seq<Stmt>, j: int) -> Seq<GEntry>
    decreases j,
{
    if j <= 0 {
        Seq::empty()
    } else {
        pend_entries(ss, j - 1) + (match ss[j - 1] {
            Stmt::Decl(DeclKind::Let, x, _) => seq![GEntry { name: x@, pending: true }],
            Stmt::Decl(DeclKind::Const, x, _) => seq![GEntry { name: x@, pending: true }],
            _ => Seq::empty(),
        })
    }
}

fn pend_entries_exec(ss: &Vec<Stmt>) -> (r: Vec<Entry>)
    ensures
        r@.map_values(|e: Entry| e.gview()) == pend_entries(ss@, ss@.len() as int),
{
    let mut out: Vec<Entry> = Vec::new();
    let n = ss.len();
    let mut j: usize = 0;
    proof {
        assert(out@.map_values(|e: Entry| e.gview()) =~= pend_entries(ss@, 0));
    }
    while j < n
        invariant
            0 <= j <= n,
            n == ss@.len(),
            out@.map_values(|e: Entry| e.gview()) == pend_entries(ss@, j as int),
        decreases n - j,
    {
        let ghost pre = out@.map_values(|e: Entry| e.gview());
        match &ss[j] {
            Stmt::Decl(k, x, _) => {
                if matches!(k, DeclKind::Let) || matches!(k, DeclKind::Const) {
                    out.push(Entry { name: x.clone(), pending: true });
                }
            },
            _ => {},
        }
        proof {
            assert(out@.map_values(|e: Entry| e.gview()) =~= pend_entries(ss@, j + 1));
        }
        j = j + 1;
    }
    out
}

/// The pending entry a `for` head registers for its own scope.
pub open spec fn for_pend(init: Option<Box<Stmt>>) -> Seq<GEntry> {
    match init {
        Some(s0) => match *s0 {
            Stmt::Decl(DeclKind::Let, x, _) => seq![GEntry { name: x@, pending: true }],
            Stmt::Decl(DeclKind::Const, x, _) => seq![GEntry { name: x@, pending: true }],
            _ => Seq::empty(),
        },
        None => Seq::empty(),
    }
}

/// Adds a name to the hoist list unless already collected.
pub open spec fn add_unique(acc: Seq<Seq<char>>, x: Seq<char>) -> Seq<Seq<char>> {
    if acc.contains(x) {
        acc
    } else {
        acc.push(x)
    }
}

/// Collects hoisted names (`var` and function declarations) of the first
/// `j` statements, descending into nested blocks but not nested functions.
pub open spec fn hoist_list(ss: Seq<Stmt>, j: int, acc: Seq<Seq<char>>) -> Seq<Seq<char>>
    decreases stmts_height(ss), j, 1int,
    via hoist_list_decreases
{
    if j <= 0 || j > ss.len() {
        acc
    } else {
        hoist_stmt(ss[j - 1], hoist_list(ss, j - 1, acc))
    }
}

#[via_fn]
proof fn hoist_list_decreases(ss: Seq<Stmt>, j: int, acc: Seq<Seq<char>>) {
    if !(j <= 0 || j > ss.len()) {
        lemma_stmts_height(ss);
    }
}

/// The hoisted names one statement contributes.
pub open spec fn hoist_stmt(s: Stmt, acc: Seq<Seq<char>>) -> Seq<Seq<char>>
    decreases stmt_height(s), 0int, 0int,
{
    match s {
        Stmt::Decl(DeclKind::Var, x, _) => add_unique(acc, x@),
        Stmt::FuncDecl(n, _, _) => add_unique(acc, n@),
        Stmt::If(_, t, f) => hoist_list(f@, f@.len() as int, hoist_list(t@, t@.len() as int, acc)),
        Stmt::While(_, b) => hoist_list(b@, b@.len() as int, acc),
        Stmt::DoWhile(b, _) => hoist_list(b@, b@.len() as int, acc),
        Stmt::For(init, _, _, b) => hoist_list(
            b@,
            b@.len() as int,
            match init {
                Some(s0) => hoist_stmt(*s0, acc),
                None => acc,
            },
        ),
        Stmt::Labeled(_, b) => hoist_stmt(*b, acc),
        Stmt::Try(t, _, c, f) => hoist_list(
            f@,
            f@.len() as int,
            hoist_list(c@, c@.len() as int, hoist_list(t@, t@.len() as int, acc)),
        ),
        Stmt::Block(b) => hoist_list(b@, b@.len() as int, acc),
        _ => acc,
    }
}

fn push_unique(acc: &mut Vec<String>, x: &String)
    ensures
        final(acc)@.map_values(|s: String| s@) == add_unique(
            old(acc)@.map_values(|s: String| s@),
            x@,
        ),
{
    let ghost pre = acc@.map_values(|s: String| s@);
    let n = acc.len();
    let mut j: usize = 0;
    while j < n
        invariant
            0 <= j <= n,
            n == acc@.len(),
            acc@ == old(acc)@,
            pre == acc@.map_values(|s: String| s@),
            forall|k: int| 0 <= k < j ==> pre[k] != x@,
        decreases n - j,
    {
        if acc[j] == *x {
            proof {
                assert(pre[j as int] == x@);
                assert(pre.contains(x@));
            }
            return ;
        }
        j = j + 1;
    }
    proof {
        if pre.contains(x@) {
            let k = choose|k: int| 0 <= k < pre.len() && pre[k] == x@;
        }
    }
    acc.push(x.clone());
    proof {
        assert(acc@.map_values(|s: String| s@) =~= pre.push(x@));
    }
}

fn hoist_list_exec(ss: &Vec<Stmt>, acc: &mut Vec<String>)
    ensures
        final(acc)@.map_values(|s: String| s@) == hoist_list(
            ss@,
            ss@.len() as int,
            old(acc)@.map_values(|s: String| s@),
        ),
    decreases stmts_height(ss@), ss@.len(), 1int,
{
    let n = ss.len();
    let mut j: usize = 0;
    while j < n
        invariant
            0 <= j <= n,
            n == ss@.len(),
            acc@.map_values(|s: String| s@) == hoist_list(
                ss@,
                j as int,
                old(acc)@.map_values(|s: String| s@),
            ),
        decreases n - j,
    {
        proof {
            crate::ast::lemma_stmts_height(ss@);
        }
        hoist_stmt_exec(&ss[j], acc);
        j = j + 1;
    }
}

fn hoist_stmt_exec(s: &Stmt, acc: &mut Vec<String>)
    ensures
        final(acc)@.map_values(|ss: String| ss@) == hoist_stmt(
            *s,
            old(acc)@.map_values(|ss: String| ss@),
        ),
    decreases stmt_height(*s), 0int, 0int,
{
    match s {
        Stmt::Decl(k, x, _) => {
            if matches!(k, DeclKind::Var) {
                push_unique(acc, x);
            }
        },
        Stmt::FuncDecl(n, _, _) => {
            push_unique(acc, n);
        },
        Stmt::If(_, t, f) => {
            hoist_list_exec(t, acc);
            hoist_list_exec(f, acc);
        },
        Stmt::While(_, b) => {
            hoist_list_exec(b, acc);
        },
        Stmt::DoWhile(b, _) => {
            hoist_list_exec(b, acc);
        },
        Stmt::For(init, _, _, b) => {
            match init {
                Some(s0) => {
                    hoist_stmt_exec(&**s0, acc);
                },
                None => {},
            }
            hoist_list_exec(b, acc);
        },
        Stmt::Labeled(_, b) => {
            hoist_stmt_exec(&**b, acc);
        },
        Stmt::Try(t, _, c, f) => {
            hoist_list_exec(t, acc);
            hoist_list_exec(c, acc);
            hoist_list_exec(f, acc);
        },
        Stmt::Block(b) => {
            hoist_list_exec(b, acc);
        },
        _ => {},
    }
}

/// A scope pushed for a block: its pending `let`/`const` entries.
pub open spec fn block_scope(ss: Seq<Stmt>) -> GScope {
    GScope { is_fn: false, entries: pend_entries(ss, ss.len() as int) }
}

pub open spec fn push_scope(cx: GCx, sc: GScope) -> GCx {
    GCx { scopes: cx.scopes.push(sc), ..cx }
}

pub open spec fn pop_scope(cx: GCx) -> GCx {
    GCx {
        scopes: if cx.scopes.len() == 0 {
            cx.scopes
        } else {
            cx.scopes.drop_last()
        },
        ..cx
    }
}

/// Registers a binding in the innermost scope.
pub open spec fn declare(cx: GCx, x: Seq<char>, pending: bool) -> GCx {
    if cx.scopes.len() == 0 {
        cx
    } else {
        let l = cx.scopes.len() - 1;
        GCx {
            scopes: cx.scopes.update(
                l,
                GScope {
                    is_fn: cx.scopes[l].is_fn,
                    entries: cx.scopes[l].entries.push(GEntry { name: x, pending }),
                },
            ),
            ..cx
        }
    }
}

/// The label counter, advanced; it pins each generated label pair.
pub open spec fn bump(c: u64) -> u64 {
    if c < 18446744073709551615u64 {
        (c + 1) as u64
    } else {
        c
    }
}

pub open spec fn bump_depth(d: u64) -> u64 {
    if d < 18446744073709551615u64 {
        (d + 1) as u64
    } else {
        d
    }
}

/// Non-pending entries for a list of names (parameters, hoisted names).
pub open spec fn entries_of_names(ns: Seq<Seq<char>>, j: int) -> Seq<GEntry>
    decreases j,
{
    if j <= 0 {
        Seq::empty()
    } else {
        entries_of_names(ns, j - 1).push(GEntry { name: ns[j - 1], pending: false })
    }
}

/// The parameter bindings of a lowered function.
pub open spec fn param_binds(ps: Seq<Seq<char>>, j: int) -> Seq<char>
    decreases j,
{
    if j <= 0 {
        Seq::empty()
    } else {
        param_binds(ps, j - 1) + "JSBox "@ + local_name(ps[j - 1]) + "=JSBox(args["@ + dec_digits(
            (j - 1) as nat,
        ) + "]);"@
    }
}

/// The hoisted declarations emitted at a function head: `ns[lo..j]`.
pub open spec fn hoist_decls(ns: Seq<Seq<char>>, lo: int, j: int) -> Seq<char>
    decreases j - lo,
{
    if j <= lo {
        Seq::empty()
    } else {
        hoist_decls(ns, lo, j - 1) + "JSBox "@ + local_name(ns[j - 1])
            + "=JSBox(JSValue::undefined());"@
    }
}

/// The target text of a binary operator joining two lowered operands.
pub open spec fn bin_text(op: BinOp, a: Seq<char>, b: Seq<char>) -> Seq<char> {
    match op {
        BinOp::Add => "("@ + a + "+"@ + b + ")"@,
        BinOp::Sub => "("@ + a + "-"@ + b + ")"@,
        BinOp::Mul => "("@ + a + "*"@ + b + ")"@,
        BinOp::Div => "("@ + a + "/"@ + b + ")"@,
        BinOp::Mod => "("@ + a + "%"@ + b + ")"@,
        BinOp::Lt => "("@ + a + "<"@ + b + ")"@,
        BinOp::Gt => "("@ + a + ">"@ + b + ")"@,
        BinOp::Le => "("@ + a + "<="@ + b + ")"@,
        BinOp::Ge => "("@ + a + ">="@ + b + ")"@,
        BinOp::StrictEq => "("@ + a + ").strict_eq("@ + b + ")"@,
        BinOp::StrictNe => "(!(("@ + a + ").strict_eq("@ + b + ")))"@,
    }
}

/// Lowers one expression: the target text and the advanced state, or the
/// first lowering error.
pub open spec fn s_expr(e: Expr, cfg: GCfg, cx: GCx) -> Result<(Seq<char>, GCx), GErr>
    decreases expr_height(e), 0int, 0int,
{
    match e {
        Expr::Undefined => Ok(("JSValue::undefined()"@, cx)),
        Expr::Null => Ok(("JSValue::null_val()"@, cx)),
        Expr::Bool(b) => Ok((
            if b {
                "JSValue(true)"@
            } else {
                "JSValue(false)"@
            },
            cx,
        )),
        Expr::Num(i) => if i > 9007199254740992 || i < -9007199254740992 {
            Err(GErr::Unsupported(int_text(i as int)))
        } else {
            Ok(("JSValue((double)"@ + int_text(i as int) + ")"@, cx))
        },
        Expr::Str(st) => Ok(("JSValue(\""@ + escaped(st@) + "\")"@, cx)),
        Expr::Ident(x) => match s_resolve(cfg, cx, x@) {
            GResolved::Local => Ok((local_name(x@), cx)),
            GResolved::Pending => Err(GErr::Tdz(x@)),
            GResolved::Global(code) => Ok((code, cx)),
            GResolved::Missing => Err(GErr::Unresolved(x@)),
        },
        Expr::Bin(op, a, b) => match s_expr(*a, cfg, cx) {
            Err(er) => Err(er),
            Ok((ta, cx1)) => match s_expr(*b, cfg, cx1) {
                Err(er) => Err(er),
                Ok((tb, cx2)) => Ok((bin_text(op, ta, tb), cx2)),
            },
        },
        Expr::Assign(x, ev) => match s_resolve(cfg, cx, x@) {
            GResolved::Local => match s_expr(*ev, cfg, cx) {
                Err(er) => Err(er),
                Ok((tv, cx1)) => Ok(("("@ + local_name(x@) + ".set("@ + tv + "))"@, cx1)),
            },
            GResolved::Pending => Err(GErr::Tdz(x@)),
            GResolved::Global(_) => Err(GErr::Unsupported(x@)),
            GResolved::Missing => Err(GErr::Unresolved(x@)),
        },
        Expr::Member(o, p) => if cfg.manifest_present && cfg.manifest.contains(p@) {
            match s_expr(*o, cfg, cx) {
                Err(er) => Err(er),
                Ok((to, cx1)) => Ok((
                    "(*prop(JSValue(\""@ + escaped(p@) + "\"),"@ + to + "))"@,
                    cx1,
                )),
            }
        } else {
            Err(GErr::UnknownProp(p@))
        },
        Expr::Call(f, args) => match s_expr(*f, cfg, cx) {
            Err(er) => Err(er),
            Ok((tf, cx1)) => match s_exprs(args@, 0, cfg, cx1, Seq::empty()) {
                Err(er) => Err(er),
                Ok((ta, cx2)) => Ok(("("@ + tf + ").call({"@ + ta + "})"@, cx2)),
            },
        },
        Expr::Func(ps, body) => s_function(ps@.map_values(|p: String| p@), body@, cfg, cx),
    }
}

/// Lowers an argument list, comma-separated.
pub open spec fn s_exprs(es: Seq<Expr>, j: int, cfg: GCfg, cx: GCx, acc: Seq<char>) -> Result<
    (Seq<char>, GCx),
    GErr,
>
    decreases exprs_height(es), es.len() - j, 0int,
    via s_exprs_decreases
{
    if j < 0 || j >= es.len() {
        Ok((acc, cx))
    } else {
        match s_expr(es[j], cfg, cx) {
            Err(er) => Err(er),
            Ok((t, cx1)) => s_exprs(
                es,
                j + 1,
                cfg,
                cx1,
                if j == 0 {
                    acc + t
                } else {
                    acc + ","@ + t
                },
            ),
        }
    }
}

#[via_fn]
proof fn s_exprs_decreases(es: Seq<Expr>, j: int, cfg: GCfg, cx: GCx, acc: Seq<char>) {
    if !(j < 0 || j >= es.len()) {
        lemma_exprs_height(es);
    }
}

/// Lowers one function value: the parameters bind the arguments, hoisted
/// names are declared undefined, and the lowered body follows.
pub open spec fn s_function(ps: Seq<Seq<char>>, body: Seq<Stmt>, cfg: GCfg, cx: GCx) -> Result<
    (Seq<char>, GCx),
    GErr,
>
    decreases stmts_height(body), body.len() + 1, 0int,
{
    let hoisted = hoist_list(body, body.len() as int, ps);
    let entries = entries_of_names(hoisted, hoisted.len() as int) + pend_entries(
        body,
        body.len() as int,
    );
    let cx1 = GCx {
        scopes: cx.scopes.push(GScope { is_fn: true, entries }),
        counter: cx.counter,
        loop_depth: 0,
        labels: Seq::empty(),
        trys: Seq::empty(),
        in_function: true,
    };
    match s_stmts(body, 0, cfg, cx1, Seq::empty()) {
        Err(er) => Err(er),
        Ok((bt, cx2)) => Ok((
            "JSValue::function([=](std::vector<JSValue> args)->JSValue{"@ + param_binds(
                ps,
                ps.len() as int,
            ) + hoist_decls(hoisted, ps.len() as int, hoisted.len() as int) + bt
                + "return JSValue::undefined();})"@,
            GCx {
                scopes: if cx2.scopes.len() == 0 {
                    cx2.scopes
                } else {
                    cx2.scopes.drop_last()
                },
                counter: cx2.counter,
                loop_depth: cx.loop_depth,
                labels: cx.labels,
                trys: cx.trys,
                in_function: cx.in_function,
            },
        )),
    }
}

/// Lowers a statement list in a fresh block scope.
pub open spec fn s_block(ss: Seq<Stmt>, cfg: GCfg, cx: GCx) -> Result<(Seq<char>, GCx), GErr>
    decreases stmts_height(ss), ss.len() + 1, 0int,
{
    match s_stmts(ss, 0, cfg, push_scope(cx, block_scope(ss)), Seq::empty()) {
        Err(er) => Err(er),
        Ok((t, cx2)) => Ok((t, pop_scope(cx2))),
    }
}

/// Lowers the statements `ss[j..]`, appending to `acc`.
pub open spec fn s_stmts(ss: Seq<Stmt>, j: int, cfg: GCfg, cx: GCx, acc: Seq<char>) -> Result<
    (Seq<char>, GCx),
    GErr,
>
    decreases stmts_height(ss), ss.len() - j, 0int,
    via s_stmts_decreases
{
    if j < 0 || j >= ss.len() {
        Ok((acc, cx))
    } else {
        match s_stmt(ss[j], cfg, cx) {
            Err(er) => Err(er),
            Ok((t, cx1)) => s_stmts(ss, j + 1, cfg, cx1, acc + t),
        }
    }
}

#[via_fn]
proof fn s_stmts_decreases(ss: Seq<Stmt>, j: int, cfg: GCfg, cx: GCx, acc: Seq<char>) {
    if !(j < 0 || j >= ss.len()) {
        lemma_stmts_height(ss);
    }
}

/// Lowers one statement.
pub open spec fn s_stmt(s: Stmt, cfg: GCfg, cx: GCx) -> Result<(Seq<char>, GCx), GErr>
    decreases stmt_height(s), 0int, 0int,
    via s_stmt_decreases
{
    match s {
        Stmt::Decl(DeclKind::Var, x, init) => match init {
            Some(e) => match s_expr(e, cfg, cx) {
                Err(er) => Err(er),
                Ok((t, cx1)) => Ok((local_name(x@) + ".set("@ + t + ");"@, cx1)),
            },
            None => Ok((Seq::empty(), cx)),
        },
        Stmt::Decl(_, x, init) => match init {
            Some(e) => match s_expr(e, cfg, cx) {
                Err(er) => Err(er),
                Ok((t, cx1)) => Ok((
                    "JSBox "@ + local_name(x@) + "=JSBox("@ + t + ");"@,
                    declare(cx1, x@, false),
                )),
            },
            None => Ok((
                "JSBox "@ + local_name(x@) + "=JSBox(JSValue::undefined());"@,
                declare(cx, x@, false),
            )),
        },
        Stmt::ExprStmt(e) => match s_expr(e, cfg, cx) {
            Err(er) => Err(er),
            Ok((t, cx1)) => Ok((t + ";"@, cx1)),
        },
        Stmt::If(c, t, f) => match s_expr(c, cfg, cx) {
            Err(er) => Err(er),
            Ok((ct, cx1)) => match s_block(t@, cfg, cx1) {
                Err(er) => Err(er),
                Ok((tt, cx2)) => match s_block(f@, cfg, cx2) {
                    Err(er) => Err(er),
                    Ok((ft, cx3)) => Ok((
                        "if(("@ + ct + ").coerce_to_bool()){"@ + tt + "}else{"@ + ft + "}"@,
                        cx3,
                    )),
                },
            },
        },
        Stmt::While(c, b) => match s_expr(c, cfg, cx) {
            Err(er) => Err(er),
            Ok((ct, cx1)) => {
                let cxl = GCx { loop_depth: bump_depth(cx1.loop_depth), ..cx1 };
                match s_block(b@, cfg, cxl) {
                    Err(er) => Err(er),
                    Ok((bt, cx2)) => Ok((
                        "while(("@ + ct + ").coerce_to_bool()){"@ + bt + "}"@,
                        GCx { loop_depth: cx1.loop_depth, ..cx2 },
                    )),
                }
            },
        },
        Stmt::DoWhile(b, c) => {
            let cxl = GCx { loop_depth: bump_depth(cx.loop_depth), ..cx };
            match s_block(b@, cfg, cxl) {
                Err(er) => Err(er),
                Ok((bt, cx1)) => {
                    let cxr = GCx { loop_depth: cx.loop_depth, ..cx1 };
                    match s_expr(c, cfg, cxr) {
                        Err(er) => Err(er),
                        Ok((ct, cx2)) => Ok((
                            "do{"@ + bt + "}while(("@ + ct + ").coerce_to_bool());"@,
                            cx2,
                        )),
                    }
                },
            }
        },
        Stmt::For(init, test, update, b) => {
            let cxs = push_scope(cx, GScope { is_fn: false, entries: for_pend(init) });
            let ir = match init {
                Some(s0) => s_stmt(*s0, cfg, cxs),
                None => Ok((Seq::empty(), cxs)),
            };
            match ir {
                Err(er) => Err(er),
                Ok((it, cx1)) => {
                    let tr = match test {
                        Some(e) => s_expr(e, cfg, cx1),
                        None => Ok((Seq::empty(), cx1)),
                    };
                    match tr {
                        Err(er) => Err(er),
                        Ok((tt, cx2)) => {
                            let ur = match update {
                                Some(e) => s_expr(e, cfg, cx2),
                                None => Ok((Seq::empty(), cx2)),
                            };
                            match ur {
                                Err(er) => Err(er),
                                Ok((ut, cx3)) => {
                                    let cxl = GCx {
                                        loop_depth: bump_depth(cx3.loop_depth),
                                        ..cx3
                                    };
                                    match s_block(b@, cfg, cxl) {
                                        Err(er) => Err(er),
                                        Ok((bt, cx4)) => Ok((
                                            "{"@ + it + "for(;"@ + tt + ";"@ + ut + "){"@ + bt
                                                + "}}"@,
                                            pop_scope(GCx { loop_depth: cx3.loop_depth, ..cx4 }),
                                        )),
                                    }
                                },
                            }
                        },
                    }
                },
            }
        },
        Stmt::Break(lab) => match lab {
            None => if cx.loop_depth > 0 {
                Ok(("break;"@, cx))
            } else {
                Err(GErr::Unsupported("break outside of a loop"@))
            },
            Some(l) => if cx.labels.contains(l@) {
                Ok(("goto "@ + label_name(l@) + "_break;"@, cx))
            } else {
                Err(GErr::Unresolved(l@))
            },
        },
        Stmt::Continue(lab) => match lab {
            None => if cx.loop_depth > 0 {
                Ok(("continue;"@, cx))
            } else {
                Err(GErr::Unsupported("continue outside of a loop"@))
            },
            Some(l) => if cx.labels.contains(l@) {
                Ok(("goto "@ + label_name(l@) + "_continue;"@, cx))
            } else {
                Err(GErr::Unresolved(l@))
            },
        },
        Stmt::Labeled(l, inner) => match *inner {
            Stmt::While(c, b) => match s_expr(c, cfg, cx) {
                Err(er) => Err(er),
                Ok((ct, cx1)) => {
                    let cxl = GCx {
                        loop_depth: bump_depth(cx1.loop_depth),
                        labels: cx1.labels.push(l@),
                        ..cx1
                    };
                    match s_block(b@, cfg, cxl) {
                        Err(er) => Err(er),
                        Ok((bt, cx2)) => Ok((
                            "while(("@ + ct + ").coerce_to_bool()){"@ + bt + label_name(l@)
                                + "_continue:;}"@ + label_name(l@) + "_break:;"@,
                            GCx {
                                loop_depth: cx1.loop_depth,
                                labels: if cx2.labels.len() == 0 {
                                    cx2.labels
                                } else {
                                    cx2.labels.drop_last()
                                },
                                ..cx2
                            },
                        )),
                    }
                },
            },
            Stmt::DoWhile(b, c) => {
                let cxl = GCx {
                    loop_depth: bump_depth(cx.loop_depth),
                    labels: cx.labels.push(l@),
                    ..cx
                };
                match s_block(b@, cfg, cxl) {
                    Err(er) => Err(er),
                    Ok((bt, cx1)) => {
                        let cxr = GCx {
                            loop_depth: cx.loop_depth,
                            labels: if cx1.labels.len() == 0 {
                                cx1.labels
                            } else {
                                cx1.labels.drop_last()
                            },
                            ..cx1
                        };
                        match s_expr(c, cfg, cxr) {
                            Err(er) => Err(er),
                            Ok((ct, cx2)) => Ok((
                                "do{"@ + bt + label_name(l@) + "_continue:;}while(("@ + ct
                                    + ").coerce_to_bool());"@ + label_name(l@) + "_break:;"@,
                                cx2,
                            )),
                        }
                    },
                }
            },
            Stmt::For(init, test, update, b) => {
                let cxs = push_scope(cx, GScope { is_fn: false, entries: for_pend(init) });
                let ir = match init {
                    Some(s0) => s_stmt(*s0, cfg, cxs),
                    None => Ok((Seq::empty(), cxs)),
                };
                match ir {
                    Err(er) => Err(er),
                    Ok((it, cx1)) => {
                        let tr = match test {
                            Some(e) => s_expr(e, cfg, cx1),
                            None => Ok((Seq::empty(), cx1)),
                        };
                        match tr {
                            Err(er) => Err(er),
                            Ok((tt, cx2)) => {
                                let ur = match update {
                                    Some(e) => s_expr(e, cfg, cx2),
                                    None => Ok((Seq::empty(), cx2)),
                                };
                                match ur {
                                    Err(er) => Err(er),
                                    Ok((ut, cx3)) => {
                                        let cxl = GCx {
                                            loop_depth: bump_depth(cx3.loop_depth),
                                            labels: cx3.labels.push(l@),
                                            ..cx3
                                        };
                                        match s_block(b@, cfg, cxl) {
                                            Err(er) => Err(er),
                                            Ok((bt, cx4)) => Ok((
                                                "{"@ + it + "for(;"@ + tt + ";"@ + ut + "){"@ + bt
                                                    + label_name(l@) + "_continue:;}"@ + label_name(
                                                    l@,
                                                ) + "_break:;}"@,
                                                pop_scope(
                                                    GCx {
                                                        loop_depth: cx3.loop_depth,
                                                        labels: if cx4.labels.len() == 0 {
                                                            cx4.labels
                                                        } else {
                                                            cx4.labels.drop_last()
                                                        },
                                                        ..cx4
                                                    },
                                                ),
                                            )),
                                        }
                                    },
                                }
                            },
                        }
                    },
                }
            },
            _ => Err(GErr::Unsupported(l@)),
        },
        Stmt::FuncDecl(n, ps, body) => match s_function(
            ps@.map_values(|p: String| p@),
            body@,
            cfg,
            cx,
        ) {
            Err(er) => Err(er),
            Ok((ft, cx1)) => Ok((local_name(n@) + "="@ + ft + ";"@, cx1)),
        },
        Stmt::Return(init) => if !cx.in_function {
            Err(GErr::Unsupported("return outside of a function"@))
        } else {
            match init {
                Some(e) => match s_expr(e, cfg, cx) {
                    Err(er) => Err(er),
                    Ok((t, cx1)) => Ok(("return "@ + t + ";"@, cx1)),
                },
                None => Ok(("return JSValue::undefined();"@, cx)),
            }
        },
        Stmt::Throw(e) => match s_expr(e, cfg, cx) {
            Err(er) => Err(er),
            Ok((t, cx1)) => if cfg.exceptions {
                Ok(("throw "@ + t + ";"@, cx1))
            } else {
                if cx1.trys.len() > 0 {
                    Ok((
                        "__err_"@ + dec_digits(cx1.trys.last() as nat) + "="@ + t + ";goto __handler_"@
                            + dec_digits(cx1.trys.last() as nat) + ";"@,
                        cx1,
                    ))
                } else {
                    Err(GErr::Unsupported("throw without an enclosing try"@))
                }
            },
        },
        Stmt::Try(t, cv, c, f) => if f.len() > 0 && (abrupt_list(t@, t@.len() as int, false)
            || abrupt_list(c@, c@.len() as int, false)) {
            Err(GErr::Unsupported("abrupt exit across finally"@))
        } else if cfg.exceptions {
            match s_block(t@, cfg, cx) {
                Err(er) => Err(er),
                Ok((tt, cx1)) => {
                    let cxc = push_scope(
                        declare(push_scope(cx1, block_scope(c@)), cv@, false),
                        GScope { is_fn: false, entries: Seq::empty() },
                    );
                    match s_stmts(c@, 0, cfg, cxc, Seq::empty()) {
                        Err(er) => Err(er),
                        Ok((ct, cx2)) => match s_block(f@, cfg, pop_scope(pop_scope(cx2))) {
                            Err(er) => Err(er),
                            Ok((ft, cx3)) => Ok((
                                "try{try{"@ + tt + "}catch(JSValue __caught){JSBox "@ + local_name(
                                    cv@,
                                ) + "=JSBox(__caught);"@ + ct + "}}catch(...){{"@ + ft
                                    + "}throw;}{"@ + ft + "}"@,
                                cx3,
                            )),
                        },
                    }
                },
            }
        } else {
            let id = cx.counter;
            let cxt = GCx { counter: bump(cx.counter), trys: cx.trys.push(id), ..cx };
            match s_block(t@, cfg, cxt) {
                Err(er) => Err(er),
                Ok((tt, cx1)) => {
                    let cxc = push_scope(
                        declare(
                            push_scope(
                                GCx {
                                    trys: if cx1.trys.len() == 0 {
                                        cx1.trys
                                    } else {
                                        cx1.trys.drop_last()
                                    },
                                    ..cx1
                                },
                                block_scope(c@),
                            ),
                            cv@,
                            false,
                        ),
                        GScope { is_fn: false, entries: Seq::empty() },
                    );
                    match s_stmts(c@, 0, cfg, cxc, Seq::empty()) {
                        Err(er) => Err(er),
                        Ok((ct, cx2)) => match s_block(f@, cfg, pop_scope(pop_scope(cx2))) {
                            Err(er) => Err(er),
                            Ok((ft, cx3)) => Ok((
                                "{JSValue __err_"@ + dec_digits(id as nat) + ";{"@ + tt
                                    + "}goto __end_"@ + dec_digits(id as nat) + ";__handler_"@
                                    + dec_digits(id as nat) + ":{JSBox "@ + local_name(cv@)
                                    + "=JSBox(__err_"@ + dec_digits(id as nat) + ");"@ + ct
                                    + "}__end_"@ + dec_digits(id as nat) + ":;{"@ + ft + "}}"@,
                                cx3,
                            )),
                        },
                    }
                },
            }
        },
        Stmt::Block(b) => match s_block(b@, cfg, cx) {
            Err(er) => Err(er),
            Ok((t, cx1)) => Ok(("{"@ + t + "}"@, cx1)),
        },
    }
}

#[via_fn]
proof fn s_stmt_decreases(s: Stmt, cfg: GCfg, cx: GCx) {
    match s {
        Stmt::Labeled(l, inner) => {
            assert(stmt_height(s) == 1 + stmt_height(*inner));
            match *inner {
                Stmt::While(c, b) => {
                    assert(stmt_height(*inner) == 1 + vstd::math::max(
                        expr_height(c) as int,
                        stmts_height(b@) as int,
                    ) as nat);
                },
                Stmt::DoWhile(b, c) => {
                    assert(stmt_height(*inner) == 1 + vstd::math::max(
                        stmts_height(b@) as int,
                        expr_height(c) as int,
                    ) as nat);
                },
                Stmt::For(init, test, update, b) => {
                    assert(stmt_height(*inner) == 1 + vstd::math::max(
                        match init {
                            Some(s0) => stmt_height(*s0) as int,
                            None => 0,
                        },
                        vstd::math::max(
                            match test {
                                Some(e) => expr_height(e) as int,
                                None => 0,
                            },
                            vstd::math::max(
                                match update {
                                    Some(e) => expr_height(e) as int,
                                    None => 0,
                                },
                                stmts_height(b@) as int,
                            ),
                        ),
                    ) as nat);
                },
                _ => {},
            }
        },
        _ => {},
    }
}

/// Lowers one module: hoisted names are declared undefined at the head of
/// the entry function, then the statements follow in source order.
pub open spec fn s_module(m: Module, cfg: GCfg) -> Result<Seq<char>, GErr> {
    let hoisted = hoist_list(m.body@, m.body@.len() as int, Seq::empty());
    let entries = entries_of_names(hoisted, hoisted.len() as int) + pend_entries(
        m.body@,
        m.body@.len() as int,
    );
    let cx0 = GCx {
        scopes: seq![GScope { is_fn: true, entries }],
        counter: 0,
        loop_depth: 0,
        labels: Seq::empty(),
        trys: Seq::empty(),
        in_function: false,
    };
    match s_stmts(m.body@, 0, cfg, cx0, Seq::empty()) {
        Err(er) => Err(er),
        Ok((t, _)) => Ok(
            "int main(){"@ + hoist_decls(hoisted, 0, hoisted.len() as int) + t + "return 0;}"@,
        ),
    }
}

/// A `let`/`const` binding referenced while still pending — lexically
/// before its textual declaration in the scope chain — lowers to a
/// temporal-order violation naming the identifier: it is never silently
/// read as undefined, and no source text is produced for it.
pub proof fn lemma_pending_reference_rejected(cfg: GCfg, cx: GCx, x: String)
    requires
        s_resolve(cfg, cx, x@) == GResolved::Pending,
    ensures
        s_expr(Expr::Ident(x), cfg, cx) == Result::<(Seq<char>, GCx), GErr>::Err(GErr::Tdz(x@)),
{
}

/// The exception strategy is fixed per run and applies to every `throw`
/// site: with native exceptions a throw lowers to the native construct;
/// without them it lowers to the explicit propagation convention (an
/// error-slot assignment and a jump to the innermost enclosing handler),
/// and with no enclosing `try` in the same function it is a lowering
/// error, never a runtime crash.
pub proof fn lemma_throw_strategy(cfg: GCfg, cx: GCx, e: Expr, t: Seq<char>, cx1: GCx)
    requires
        s_expr(e, cfg, cx) == Result::<(Seq<char>, GCx), GErr>::Ok((t, cx1)),
    ensures
        cfg.exceptions ==> s_stmt(Stmt::Throw(e), cfg, cx) == Result::<(Seq<char>, GCx), GErr>::Ok(
            (("throw "@ + t + ";"@), cx1),
        ),
        !cfg.exceptions && cx1.trys.len() > 0 ==> s_stmt(Stmt::Throw(e), cfg, cx)
            == Result::<(Seq<char>, GCx), GErr>::Ok(
            ((
                "__err_"@ + dec_digits(cx1.trys.last() as nat) + "="@ + t + ";goto __handler_"@
                    + dec_digits(cx1.trys.last() as nat) + ";"@
            ), cx1),
        ),
        !cfg.exceptions && cx1.trys.len() == 0 ==> s_stmt(Stmt::Throw(e), cfg, cx)
            == Result::<(Seq<char>, GCx), GErr>::Err(
            GErr::Unsupported("throw without an enclosing try"@),
        ),
{
}

/// Whether an exec result mirrors a spec lowering result.
pub open spec fn mirrors(r: Result<(String, Cx), CompileError>, s: Result<(Seq<char>, GCx), GErr>) -> bool {
    match r {
        Ok(p) => s == Result::<(Seq<char>, GCx), GErr>::Ok((p.0@, p.1.gcx())),
        Err(e) => s == Result::<(Seq<char>, GCx), GErr>::Err(err_view(e)),
    }
}

fn local_name_exec(x: &String) -> (r: String)
    ensures
        r@ == local_name(x@),
{
    String::from_str("js_").concat(mangle_str(x.as_str()).as_str())
}

fn label_name_exec(l: &String) -> (r: String)
    ensures
        r@ == label_name(l@),
{
    String::from_str("lbl_").concat(mangle_str(l.as_str()).as_str())
}

fn bin_text_exec(op: BinOp, a: String, b: String) -> (r: String)
    ensures
        r@ == bin_text(op, a@, b@),
{
    match op {
        BinOp::Add => String::from_str("(").concat(a.as_str()).concat("+").concat(b.as_str()).concat(")"),
        BinOp::Sub => String::from_str("(").concat(a.as_str()).concat("-").concat(b.as_str()).concat(")"),
        BinOp::Mul => String::from_str("(").concat(a.as_str()).concat("*").concat(b.as_str()).concat(")"),
        BinOp::Div => String::from_str("(").concat(a.as_str()).concat("/").concat(b.as_str()).concat(")"),
        BinOp::Mod => String::from_str("(").concat(a.as_str()).concat("%").concat(b.as_str()).concat(")"),
        BinOp::Lt => String::from_str("(").concat(a.as_str()).concat("<").concat(b.as_str()).concat(")"),
        BinOp::Gt => String::from_str("(").concat(a.as_str()).concat(">").concat(b.as_str()).concat(")"),
        BinOp::Le => String::from_str("(").concat(a.as_str()).concat("<=").concat(b.as_str()).concat(")"),
        BinOp::Ge => String::from_str("(").concat(a.as_str()).concat(">=").concat(b.as_str()).concat(")"),
        BinOp::StrictEq => String::from_str("(").concat(a.as_str()).concat(").strict_eq(").concat(
            b.as_str(),
        ).concat(")"),
        BinOp::StrictNe => String::from_str("(!((").concat(a.as_str()).concat(").strict_eq(").concat(
            b.as_str(),
        ).concat(")))"),
    }
}

fn cx_push_block(cx: Cx, ss: &Vec<Stmt>) -> (r: Cx)
    ensures
        r.gcx() == push_scope(cx.gcx(), block_scope(ss@)),
{
    let ghost g = cx.gcx();
    let entries = pend_entries_exec(ss);
    let mut cx = cx;
    cx.scopes.push(Scope { is_fn: false, entries });
    proof {
        assert(cx.gcx().scopes =~= g.scopes.push(block_scope(ss@)));
        assert(cx.gcx() =~= push_scope(g, block_scope(ss@)));
    }
    cx
}

fn cx_pop(cx: Cx) -> (r: Cx)
    ensures
        r.gcx() == pop_scope(cx.gcx()),
{
    let ghost g = cx.gcx();
    let mut cx = cx;
    if cx.scopes.len() > 0 {
        cx.scopes.pop();
        proof {
            assert(cx.gcx().scopes =~= g.scopes.drop_last());
            assert(cx.gcx() =~= pop_scope(g));
        }
    } else {
        proof {
            assert(cx.gcx() =~= pop_scope(g));
        }
    }
    cx
}

fn cx_declare(cx: Cx, x: &String, pending: bool) -> (r: Cx)
    ensures
        r.gcx() == declare(cx.gcx(), x@, pending),
{
    let ghost g = cx.gcx();
    let mut cx = cx;
    if cx.scopes.len() > 0 {
        let popped = cx.scopes.pop();
        match popped {
            Some(mut sc) => {
                let ghost gsc = sc.gview();
                sc.entries.push(Entry { name: x.clone(), pending });
                proof {
                    assert(sc.gview().entries =~= gsc.entries.push(
                        GEntry { name: x@, pending },
                    ));
                    assert(sc.gview() =~= GScope {
                        is_fn: gsc.is_fn,
                        entries: gsc.entries.push(GEntry { name: x@, pending }),
                    });
                }
                cx.scopes.push(sc);
                proof {
                    let l = g.scopes.len() - 1;
                    assert(gsc =~= g.scopes[l]);
                    assert(cx.gcx().scopes =~= g.scopes.update(
                        l,
                        GScope {
                            is_fn: g.scopes[l].is_fn,
                            entries: g.scopes[l].entries.push(GEntry { name: x@, pending }),
                        },
                    ));
                    assert(cx.gcx() =~= declare(g, x@, pending));
                }
            },
            None => {},
        }
    } else {
        proof {
            assert(cx.gcx() =~= declare(g, x@, pending));
        }
    }
    cx
}

fn clone_names(ps: &Vec<String>) -> (r: Vec<String>)
    ensures
        r@.map_values(|p: String| p@) == ps@.map_values(|p: String| p@),
{
    let mut out: Vec<String> = Vec::new();
    let n = ps.len();
    let mut j: usize = 0;
    while j < n
        invariant
            0 <= j <= n,
            n == ps@.len(),
            out@.len() == j,
            forall|k: int| 0 <= k < j ==> out@[k]@ == #[trigger] ps@[k]@,
        decreases n - j,
    {
        out.push(ps[j].clone());
        j = j + 1;
    }
    proof {
        let a = out@.map_values(|p: String| p@);
        let b = ps@.map_values(|p: String| p@);
        assert forall|k: int| 0 <= k < a.len() implies a[k] == b[k] by {
            assert(out@[k]@ == ps@[k]@);
        }
        assert(a =~= b);
    }
    out
}

fn entries_of_names_exec(ns: &Vec<String>) -> (r: Vec<Entry>)
    ensures
        r@.map_values(|e: Entry| e.gview()) == entries_of_names(
            ns@.map_values(|p: String| p@),
            ns@.len() as int,
        ),
{
    let ghost gn = ns@.map_values(|p: String| p@);
    let mut out: Vec<Entry> = Vec::new();
    let n = ns.len();
    let mut j: usize = 0;
    proof {
        assert(out@.map_values(|e: Entry| e.gview()) =~= entries_of_names(gn, 0));
    }
    while j < n
        invariant
            0 <= j <= n,
            n == ns@.len(),
            gn == ns@.map_values(|p: String| p@),
            out@.map_values(|e: Entry| e.gview()) == entries_of_names(gn, j as int),
        decreases n - j,
    {
        out.push(Entry { name: ns[j].clone(), pending: false });
        proof {
            assert(out@.map_values(|e: Entry| e.gview()) =~= entries_of_names(gn, j + 1));
        }
        j = j + 1;
    }
    out
}

fn param_binds_exec(ps: &Vec<String>) -> (r: String)
    ensures
        r@ == param_binds(ps@.map_values(|p: String| p@), ps@.len() as int),
{
    let ghost gp = ps@.map_values(|p: String| p@);
    let mut out = String::new();
    let n = ps.len();
    let mut j: usize = 0;
    proof {
        assert(out@ =~= param_binds(gp, 0));
    }
    while j < n
        invariant
            0 <= j <= n,
            n == ps@.len(),
            gp == ps@.map_values(|p: String| p@),
            out@ == param_binds(gp, j as int),
        decreases n - j,
    {
        out.append("JSBox ");
        out.append(local_name_exec(&ps[j]).as_str());
        out.append("=JSBox(args[");
        out.append(u64_to_string(j as u64).as_str());
        out.append("]);");
        j = j + 1;
    }
    out
}

fn hoist_decls_exec(ns: &Vec<String>, lo: usize) -> (r: String)
    ensures
        r@ == hoist_decls(ns@.map_values(|p: String| p@), lo as int, ns@.len() as int),
{
    let ghost gn = ns@.map_values(|p: String| p@);
    let mut out = String::new();
    let n = ns.len();
    if lo >= n {
        proof {
            assert(out@ =~= hoist_decls(gn, lo as int, n as int));
        }
        return out;
    }
    let mut j: usize = lo;
    proof {
        assert(out@ =~= hoist_decls(gn, lo as int, lo as int));
    }
    while j < n
        invariant
            lo <= j <= n,
            n == ns@.len(),
            gn == ns@.map_values(|p: String| p@),
            out@ == hoist_decls(gn, lo as int, j as int),
        decreases n - j,
    {
        out.append("JSBox ");
        out.append(local_name_exec(&ns[j]).as_str());
        out.append("=JSBox(JSValue::undefined());");
        j = j + 1;
    }
    out
}

fn cx_push_empty(cx: Cx) -> (r: Cx)
    ensures
        r.gcx() == push_scope(cx.gcx(), GScope { is_fn: false, entries: Seq::empty() }),
{
    let ghost g = cx.gcx();
    let mut cx = cx;
    let ev: Vec<Entry> = Vec::new();
    proof {
        assert(ev@.map_values(|e: Entry| e.gview()) =~= Seq::<GEntry>::empty());
    }
    cx.scopes.push(Scope { is_fn: false, entries: ev });
    proof {
        assert(cx.gcx().scopes =~= g.scopes.push(GScope { is_fn: false, entries: Seq::empty() }));
        assert(cx.gcx() =~= push_scope(g, GScope { is_fn: false, entries: Seq::empty() }));
    }
    cx
}

/// Lowers one expression to target text, advancing the state.
fn lower_expr(cfg: &Transpiler, e: &Expr, cx: Cx) -> (r: Result<(String, Cx), CompileError>)
    ensures
        mirrors(r, s_expr(*e, cfg.gcfg(), cx.gcx())),
    decreases expr_height(*e), 0int, 0int,
{
    match e {
        Expr::Undefined => Ok((String::from_str("JSValue::undefined()"), cx)),
        Expr::Null => Ok((String::from_str("JSValue::null_val()"), cx)),
        Expr::Bool(b) => Ok((
            if *b {
                String::from_str("JSValue(true)")
            } else {
                String::from_str("JSValue(false)")
            },
            cx,
        )),
        Expr::Num(i) => {
            if *i > 9007199254740992i64 || *i < -9007199254740992i64 {
                Err(CompileError::UnsupportedConstruct(i64_to_string(*i)))
            } else {
                Ok((
                    String::from_str("JSValue((double)").concat(i64_to_string(*i).as_str())
                        .concat(")"),
                    cx,
                ))
            }
        },
        Expr::Str(st) => Ok((
            String::from_str("JSValue(\"").concat(escape_str(st.as_str()).as_str()).concat(
                "\")",
            ),
            cx,
        )),
        Expr::Ident(x) => match resolve_exec(cfg, &cx, x) {
            Some(Err(pending)) => {
                if pending {
                    Err(CompileError::TemporalOrderViolation(x.clone()))
                } else {
                    Ok((local_name_exec(x), cx))
                }
            },
            Some(Ok(code)) => Ok((code, cx)),
            None => Err(CompileError::UnresolvedIdentifier(x.clone())),
        },
        Expr::Bin(op, a, b) => match lower_expr(cfg, &**a, cx) {
            Err(er) => Err(er),
            Ok((ta, cx1)) => match lower_expr(cfg, &**b, cx1) {
                Err(er) => Err(er),
                Ok((tb, cx2)) => Ok((bin_text_exec(*op, ta, tb), cx2)),
            },
        },
        Expr::Assign(x, ev) => match resolve_exec(cfg, &cx, x) {
            Some(Err(pending)) => {
                if pending {
                    Err(CompileError::TemporalOrderViolation(x.clone()))
                } else {
                    match lower_expr(cfg, &**ev, cx) {
                        Err(er) => Err(er),
                        Ok((tv, cx1)) => Ok((
                            String::from_str("(").concat(local_name_exec(x).as_str()).concat(
                                ".set(",
                            ).concat(tv.as_str()).concat("))"),
                            cx1,
                        )),
                    }
                }
            },
            Some(Ok(_)) => Err(CompileError::UnsupportedConstruct(x.clone())),
            None => Err(CompileError::UnresolvedIdentifier(x.clone())),
        },
        Expr::Member(o, p) => {
            let known: bool = match &cfg.manifest {
                Some(m) => match m.slot_of(p) {
                    Some(_) => {
                        proof {
                            assert(cfg.gcfg().manifest.contains(p@));
                        }
                        true
                    },
                    None => false,
                },
                None => false,
            };
            if known {
                match lower_expr(cfg, &**o, cx) {
                    Err(er) => Err(er),
                    Ok((to, cx1)) => Ok((
                        String::from_str("(*prop(JSValue(\"").concat(
                            escape_str(p.as_str()).as_str(),
                        ).concat("\"),").concat(to.as_str()).concat("))"),
                        cx1,
                    )),
                }
            } else {
                Err(CompileError::UnknownProperty(p.clone()))
            }
        },
        Expr::Call(f, args) => match lower_expr(cfg, &**f, cx) {
            Err(er) => Err(er),
            Ok((tf, cx1)) => match lower_exprs(cfg, args, cx1) {
                Err(er) => Err(er),
                Ok((ta, cx2)) => Ok((
                    String::from_str("(").concat(tf.as_str()).concat(").call({").concat(
                        ta.as_str(),
                    ).concat("})"),
                    cx2,
                )),
            },
        },
        Expr::Func(ps, fbody) => lower_function(cfg, ps, fbody, cx),
    }
}

/// Lowers an argument list, comma-separated.
#[verifier::loop_isolation(false)]
fn lower_exprs(cfg: &Transpiler, es: &Vec<Expr>, cx: Cx) -> (r: Result<(String, Cx), CompileError>)
    ensures
        mirrors(r, s_exprs(es@, 0, cfg.gcfg(), cx.gcx(), Seq::empty())),
    decreases exprs_height(es@), es@.len(), 0int,
{
    let ghost g0 = cx.gcx();
    let mut out = String::new();
    let mut cur = cx;
    let n = es.len();
    let mut j: usize = 0;
    proof {
        assert(out@ =~= Seq::<char>::empty());
    }
    while j < n
        invariant
            0 <= j <= n,
            n == es@.len(),
            s_exprs(es@, 0, cfg.gcfg(), g0, Seq::empty()) == s_exprs(
                es@,
                j as int,
                cfg.gcfg(),
                cur.gcx(),
                out@,
            ),
        decreases n - j,
    {
        proof {
            lemma_exprs_height(es@);
        }
        if j > 0 {
            out.append(",");
        }
        match lower_expr(cfg, &es[j], cur) {
            Err(er) => {
                return Err(er);
            },
            Ok((t, cx1)) => {
                out.append(t.as_str());
                cur = cx1;
            },
        }
        j = j + 1;
    }
    Ok((out, cur))
}

/// Lowers one function value.
fn lower_function(cfg: &Transpiler, ps: &Vec<String>, body: &Vec<Stmt>, cx: Cx) -> (r: Result<
    (String, Cx),
    CompileError,
>)
    ensures
        mirrors(r, s_function(ps@.map_values(|p: String| p@), body@, cfg.gcfg(), cx.gcx())),
    decreases stmts_height(body@), body@.len() + 1, 0int,
{
    let ghost g = cx.gcx();
    let ghost gps = ps@.map_values(|p: String| p@);
    let mut hoisted = clone_names(ps);
    hoist_list_exec(body, &mut hoisted);
    let ghost gh = hoisted@.map_values(|p: String| p@);
    let mut entries = entries_of_names_exec(&hoisted);
    let ghost ge1 = entries@.map_values(|e: Entry| e.gview());
    let mut pend = pend_entries_exec(body);
    let ghost ge2 = pend@.map_values(|e: Entry| e.gview());
    entries.append(&mut pend);
    proof {
        assert forall|k: int| 0 <= k < entries@.len() implies entries@.map_values(
            |e: Entry| e.gview(),
        )[k] == (ge1 + ge2)[k] by {
            if k < ge1.len() {
            }
        }
        assert(entries@.map_values(|e: Entry| e.gview()) =~= ge1 + ge2);
    }
    let Cx { mut scopes, counter, loop_depth, labels, trys, in_function } = cx;
    scopes.push(Scope { is_fn: true, entries });
    let cx1 = Cx {
        scopes,
        counter,
        loop_depth: 0,
        labels: Vec::new(),
        trys: Vec::new(),
        in_function: true,
    };
    proof {
        assert(cx1.gcx().scopes =~= g.scopes.push(
            GScope {
                is_fn: true,
                entries: entries_of_names(gh, gh.len() as int) + pend_entries(
                    body@,
                    body@.len() as int,
                ),
            },
        ));
        assert(cx1.gcx().labels =~= Seq::<Seq<char>>::empty());
        assert(cx1.gcx() =~= GCx {
            scopes: g.scopes.push(
                GScope {
                    is_fn: true,
                    entries: entries_of_names(gh, gh.len() as int) + pend_entries(
                        body@,
                        body@.len() as int,
                    ),
                },
            ),
            counter: g.counter,
            loop_depth: 0,
            labels: Seq::empty(),
            trys: Seq::empty(),
            in_function: true,
        });
    }
    match lower_stmts(cfg, body, cx1) {
        Err(er) => Err(er),
        Ok((bt, cx2)) => {
            let ghost g2 = cx2.gcx();
            let Cx { scopes: mut sc2, counter: c2, .. } = cx2;
            if sc2.len() > 0 {
                sc2.pop();
            }
            let cx3 = Cx {
                scopes: sc2,
                counter: c2,
                loop_depth,
                labels,
                trys,
                in_function,
            };
            proof {
                if g2.scopes.len() == 0 {
                    assert(cx3.gcx().scopes =~= g2.scopes);
                } else {
                    assert(cx3.gcx().scopes =~= g2.scopes.drop_last());
                }
                assert(cx3.gcx() =~= GCx {
                    scopes: if g2.scopes.len() == 0 {
                        g2.scopes
                    } else {
                        g2.scopes.drop_last()
                    },
                    counter: g2.counter,
                    loop_depth: g.loop_depth,
                    labels: g.labels,
                    trys: g.trys,
                    in_function: g.in_function,
                });
            }
            let text = String::from_str(
                "JSValue::function([=](std::vector<JSValue> args)->JSValue{",
            ).concat(param_binds_exec(ps).as_str()).concat(
                hoist_decls_exec(&hoisted, ps.len()).as_str(),
            ).concat(bt.as_str()).concat("return JSValue::undefined();})");
            Ok((text, cx3))
        },
    }
}

/// Lowers a statement list in a fresh block scope.
fn lower_block(cfg: &Transpiler, ss: &Vec<Stmt>, cx: Cx) -> (r: Result<(String, Cx), CompileError>)
    ensures
        mirrors(r, s_block(ss@, cfg.gcfg(), cx.gcx())),
    decreases stmts_height(ss@), ss@.len() + 1, 0int,
{
    let cx1 = cx_push_block(cx, ss);
    match lower_stmts(cfg, ss, cx1) {
        Err(er) => Err(er),
        Ok((t, cx2)) => Ok((t, cx_pop(cx2))),
    }
}

/// Lowers the statements of one list in order, stopping at the first error.
#[verifier::loop_isolation(false)]
fn lower_stmts(cfg: &Transpiler, ss: &Vec<Stmt>, cx: Cx) -> (r: Result<(String, Cx), CompileError>)
    ensures
        mirrors(r, s_stmts(ss@, 0, cfg.gcfg(), cx.gcx(), Seq::empty())),
    decreases stmts_height(ss@), ss@.len(), 0int,
{
    let ghost g0 = cx.gcx();
    let mut out = String::new();
    let mut cur = cx;
    let n = ss.len();
    let mut j: usize = 0;
    proof {
        assert(out@ =~= Seq::<char>::empty());
    }
    while j < n
        invariant
            0 <= j <= n,
            n == ss@.len(),
            s_stmts(ss@, 0, cfg.gcfg(), g0, Seq::empty()) == s_stmts(
                ss@,
                j as int,
                cfg.gcfg(),
                cur.gcx(),
                out@,
            ),
        decreases n - j,
    {
        proof {
            lemma_stmts_height(ss@);
        }
        match lower_stmt(cfg, &ss[j], cur) {
            Err(er) => {
                return Err(er);
            },
            Ok((t, cx1)) => {
                out.append(t.as_str());
                cur = cx1;
            },
        }
        j = j + 1;
    }
    Ok((out, cur))
}

/// Lowers one statement.
#[verifier::rlimit(100)]
fn lower_stmt(cfg: &Transpiler, s: &Stmt, cx: Cx) -> (r: Result<(String, Cx), CompileError>)
    ensures
        mirrors(r, s_stmt(*s, cfg.gcfg(), cx.gcx())),
    decreases stmt_height(*s), 0int, 0int,
{
    match s {
        Stmt::Decl(kind, x, init) => match kind {
            DeclKind::Var => match init {
                Some(e) => match lower_expr(cfg, e, cx) {
                    Err(er) => Err(er),
                    Ok((t, cx1)) => Ok((
                        local_name_exec(x).concat(".set(").concat(t.as_str()).concat(");"),
                        cx1,
                    )),
                },
                None => Ok((String::new(), cx)),
            },
            _ => match init {
                Some(e) => match lower_expr(cfg, e, cx) {
                    Err(er) => Err(er),
                    Ok((t, cx1)) => Ok((
                        String::from_str("JSBox ").concat(local_name_exec(x).as_str()).concat(
                            "=JSBox(",
                        ).concat(t.as_str()).concat(");"),
                        cx_declare(cx1, x, false),
                    )),
                },
                None => Ok((
                    String::from_str("JSBox ").concat(local_name_exec(x).as_str()).concat(
                        "=JSBox(JSValue::undefined());",
                    ),
                    cx_declare(cx, x, false),
                )),
            },
        },
        Stmt::ExprStmt(e) => match lower_expr(cfg, e, cx) {
            Err(er) => Err(er),
            Ok((t, cx1)) => Ok((t.concat(";"), cx1)),
        },
        Stmt::If(c, t, f) => match lower_expr(cfg, c, cx) {
            Err(er) => Err(er),
            Ok((ct, cx1)) => match lower_block(cfg, t, cx1) {
                Err(er) => Err(er),
                Ok((tt, cx2)) => match lower_block(cfg, f, cx2) {
                    Err(er) => Err(er),
                    Ok((ft, cx3)) => Ok((
                        String::from_str("if((").concat(ct.as_str()).concat(
                            ").coerce_to_bool()){",
                        ).concat(tt.as_str()).concat("}else{").concat(ft.as_str()).concat("}"),
                        cx3,
                    )),
                },
            },
        },
        Stmt::While(c, b) => match lower_expr(cfg, c, cx) {
            Err(er) => Err(er),
            Ok((ct, cx1)) => {
                let ghost g1 = cx1.gcx();
                let saved = cx1.loop_depth;
                let mut cx1 = cx1;
                cx1.loop_depth = if cx1.loop_depth < 18446744073709551615u64 {
                    cx1.loop_depth + 1
                } else {
                    cx1.loop_depth
                };
                proof {
                    assert(cx1.gcx() =~= GCx { loop_depth: bump_depth(g1.loop_depth), ..g1 });
                }
                match lower_block(cfg, b, cx1) {
                    Err(er) => Err(er),
                    Ok((bt, cx2)) => {
                        let ghost g2 = cx2.gcx();
                        let mut cx2 = cx2;
                        cx2.loop_depth = saved;
                        proof {
                            assert(cx2.gcx() =~= GCx { loop_depth: g1.loop_depth, ..g2 });
                        }
                        Ok((
                            String::from_str("while((").concat(ct.as_str()).concat(
                                ").coerce_to_bool()){",
                            ).concat(bt.as_str()).concat("}"),
                            cx2,
                        ))
                    },
                }
            },
        },
        Stmt::DoWhile(b, c) => {
            let ghost g0 = cx.gcx();
            let saved = cx.loop_depth;
            let mut cx = cx;
            cx.loop_depth = if cx.loop_depth < 18446744073709551615u64 {
                cx.loop_depth + 1
            } else {
                cx.loop_depth
            };
            proof {
                assert(cx.gcx() =~= GCx { loop_depth: bump_depth(g0.loop_depth), ..g0 });
            }
            match lower_block(cfg, b, cx) {
                Err(er) => Err(er),
                Ok((bt, cx1)) => {
                    let ghost g1 = cx1.gcx();
                    let mut cx1 = cx1;
                    cx1.loop_depth = saved;
                    proof {
                        assert(cx1.gcx() =~= GCx { loop_depth: g0.loop_depth, ..g1 });
                    }
                    match lower_expr(cfg, c, cx1) {
                        Err(er) => Err(er),
                        Ok((ct, cx2)) => Ok((
                            String::from_str("do{").concat(bt.as_str()).concat("}while((").concat(
                                ct.as_str(),
                            ).concat(").coerce_to_bool());"),
                            cx2,
                        )),
                    }
                },
            }
        },
        Stmt::For(init, test, update, b) => {
            proof {
                lemma_for_parts_height(*s);
            }
            let cxs = cx_push_for(cx, init);
            let ir = match init {
                Some(s0) => lower_stmt(cfg, &**s0, cxs),
                None => Ok((String::new(), cxs)),
            };
            match ir {
                Err(er) => Err(er),
                Ok((it, cx1)) => {
                    let tr = match test {
                        Some(e) => lower_expr(cfg, e, cx1),
                        None => Ok((String::new(), cx1)),
                    };
                    match tr {
                        Err(er) => Err(er),
                        Ok((tt, cx2)) => {
                            let ur = match update {
                                Some(e) => lower_expr(cfg, e, cx2),
                                None => Ok((String::new(), cx2)),
                            };
                            match ur {
                                Err(er) => Err(er),
                                Ok((ut, cx3)) => {
                                    let ghost g3 = cx3.gcx();
                                    let saved = cx3.loop_depth;
                                    let mut cx3 = cx3;
                                    cx3.loop_depth = if cx3.loop_depth < 18446744073709551615u64 {
                                        cx3.loop_depth + 1
                                    } else {
                                        cx3.loop_depth
                                    };
                                    proof {
                                        assert(cx3.gcx() =~= GCx {
                                            loop_depth: bump_depth(g3.loop_depth),
                                            ..g3
                                        });
                                    }
                                    match lower_block(cfg, b, cx3) {
                                        Err(er) => Err(er),
                                        Ok((bt, cx4)) => {
                                            let ghost g4 = cx4.gcx();
                                            let mut cx4 = cx4;
                                            cx4.loop_depth = saved;
                                            proof {
                                                assert(cx4.gcx() =~= GCx {
                                                    loop_depth: g3.loop_depth,
                                                    ..g4
                                                });
                                            }
                                            Ok((
                                                String::from_str("{").concat(it.as_str()).concat(
                                                    "for(;",
                                                ).concat(tt.as_str()).concat(";").concat(
                                                    ut.as_str(),
                                                ).concat("){").concat(bt.as_str()).concat("}}"),
                                                cx_pop(cx4),
                                            ))
                                        },
                                    }
                                },
                            }
                        },
                    }
                },
            }
        },
        Stmt::Break(lab) => match lab {
            None => {
                if cx.loop_depth > 0 {
                    Ok((String::from_str("break;"), cx))
                } else {
                    Err(CompileError::UnsupportedConstruct(
                        String::from_str("break outside of a loop"),
                    ))
                }
            },
            Some(l) => {
                if label_known(&cx, l) {
                    Ok((
                        String::from_str("goto ").concat(label_name_exec(l).as_str()).concat(
                            "_break;",
                        ),
                        cx,
                    ))
                } else {
                    Err(CompileError::UnresolvedIdentifier(l.clone()))
                }
            },
        },
        Stmt::Continue(lab) => match lab {
            None => {
                if cx.loop_depth > 0 {
                    Ok((String::from_str("continue;"), cx))
                } else {
                    Err(CompileError::UnsupportedConstruct(
                        String::from_str("continue outside of a loop"),
                    ))
                }
            },
            Some(l) => {
                if label_known(&cx, l) {
                    Ok((
                        String::from_str("goto ").concat(label_name_exec(l).as_str()).concat(
                            "_continue;",
                        ),
                        cx,
                    ))
                } else {
                    Err(CompileError::UnresolvedIdentifier(l.clone()))
                }
            },
        },
        Stmt::Labeled(l, inner) => match &**inner {
            Stmt::While(c, b) => {
                proof {
                    assert(stmt_height(*s) == 1 + stmt_height(**inner));
                    assert(stmt_height(**inner) == 1 + vstd::math::max(
                        expr_height(*c) as int,
                        stmts_height(b@) as int,
                    ) as nat);
                }
                match lower_expr(cfg, c, cx) {
                    Err(er) => Err(er),
                    Ok((ct, cx1)) => {
                        let ghost g1 = cx1.gcx();
                        let saved = cx1.loop_depth;
                        let mut cx1 = cx1;
                        cx1.loop_depth = if cx1.loop_depth < 18446744073709551615u64 {
                            cx1.loop_depth + 1
                        } else {
                            cx1.loop_depth
                        };
                        cx1.labels.push(l.clone());
                        proof {
                            assert(cx1.gcx().labels =~= g1.labels.push(l@));
                            assert(cx1.gcx() =~= GCx {
                                loop_depth: bump_depth(g1.loop_depth),
                                labels: g1.labels.push(l@),
                                ..g1
                            });
                        }
                        match lower_block(cfg, b, cx1) {
                            Err(er) => Err(er),
                            Ok((bt, cx2)) => {
                                let ghost g2 = cx2.gcx();
                                let mut cx2 = cx2;
                                cx2.loop_depth = saved;
                                if cx2.labels.len() > 0 {
                                    cx2.labels.pop();
                                }
                                proof {
                                    if g2.labels.len() == 0 {
                                        assert(cx2.gcx().labels =~= g2.labels);
                                    } else {
                                        assert(cx2.gcx().labels =~= g2.labels.drop_last());
                                    }
                                    assert(cx2.gcx() =~= GCx {
                                        loop_depth: g1.loop_depth,
                                        labels: if g2.labels.len() == 0 {
                                            g2.labels
                                        } else {
                                            g2.labels.drop_last()
                                        },
                                        ..g2
                                    });
                                }
                                Ok((
                                    String::from_str("while((").concat(ct.as_str()).concat(
                                        ").coerce_to_bool()){",
                                    ).concat(bt.as_str()).concat(label_name_exec(l).as_str())
                                        .concat("_continue:;}").concat(
                                        label_name_exec(l).as_str(),
                                    ).concat("_break:;"),
                                    cx2,
                                ))
                            },
                        }
                    },
                }
            },
            Stmt::DoWhile(b, c) => {
                proof {
                    assert(stmt_height(*s) == 1 + stmt_height(**inner));
                    assert(stmt_height(**inner) == 1 + vstd::math::max(
                        stmts_height(b@) as int,
                        expr_height(*c) as int,
                    ) as nat);
                }
                let ghost g0 = cx.gcx();
                let saved = cx.loop_depth;
                let mut cx = cx;
                cx.loop_depth = if cx.loop_depth < 18446744073709551615u64 {
                    cx.loop_depth + 1
                } else {
                    cx.loop_depth
                };
                cx.labels.push(l.clone());
                proof {
                    assert(cx.gcx().labels =~= g0.labels.push(l@));
                    assert(cx.gcx() =~= GCx {
                        loop_depth: bump_depth(g0.loop_depth),
                        labels: g0.labels.push(l@),
                        ..g0
                    });
                }
                match lower_block(cfg, b, cx) {
                    Err(er) => Err(er),
                    Ok((bt, cx1)) => {
                        let ghost g1 = cx1.gcx();
                        let mut cx1 = cx1;
                        cx1.loop_depth = saved;
                        if cx1.labels.len() > 0 {
                            cx1.labels.pop();
                        }
                        proof {
                            if g1.labels.len() == 0 {
                                assert(cx1.gcx().labels =~= g1.labels);
                            } else {
                                assert(cx1.gcx().labels =~= g1.labels.drop_last());
                            }
                            assert(cx1.gcx() =~= GCx {
                                loop_depth: g0.loop_depth,
                                labels: if g1.labels.len() == 0 {
                                    g1.labels
                                } else {
                                    g1.labels.drop_last()
                                },
                                ..g1
                            });
                        }
                        match lower_expr(cfg, c, cx1) {
                            Err(er) => Err(er),
                            Ok((ct, cx2)) => Ok((
                                String::from_str("do{").concat(bt.as_str()).concat(
                                    label_name_exec(l).as_str(),
                                ).concat("_continue:;}while((").concat(ct.as_str()).concat(
                                    ").coerce_to_bool());",
                                ).concat(label_name_exec(l).as_str()).concat("_break:;"),
                                cx2,
                            )),
                        }
                    },
                }
            },
            Stmt::For(init, test, update, b) => {
                proof {
                    assert(stmt_height(*s) == 1 + stmt_height(**inner));
                    lemma_for_parts_height(**inner);
                }
                let cxs = cx_push_for(cx, init);
                let ir = match init {
                    Some(s0) => lower_stmt(cfg, &**s0, cxs),
                    None => Ok((String::new(), cxs)),
                };
                match ir {
                    Err(er) => Err(er),
                    Ok((it, cx1)) => {
                        let tr = match test {
                            Some(e) => lower_expr(cfg, e, cx1),
                            None => Ok((String::new(), cx1)),
                        };
                        match tr {
                            Err(er) => Err(er),
                            Ok((tt, cx2)) => {
                                let ur = match update {
                                    Some(e) => lower_expr(cfg, e, cx2),
                                    None => Ok((String::new(), cx2)),
                                };
                                match ur {
                                    Err(er) => Err(er),
                                    Ok((ut, cx3)) => {
                                        let ghost g3 = cx3.gcx();
                                        let saved = cx3.loop_depth;
                                        let mut cx3 = cx3;
                                        cx3.loop_depth = if cx3.loop_depth
                                            < 18446744073709551615u64 {
                                            cx3.loop_depth + 1
                                        } else {
                                            cx3.loop_depth
                                        };
                                        cx3.labels.push(l.clone());
                                        proof {
                                            assert(cx3.gcx().labels =~= g3.labels.push(l@));
                                            assert(cx3.gcx() =~= GCx {
                                                loop_depth: bump_depth(g3.loop_depth),
                                                labels: g3.labels.push(l@),
                                                ..g3
                                            });
                                        }
                                        match lower_block(cfg, b, cx3) {
                                            Err(er) => Err(er),
                                            Ok((bt, cx4)) => {
                                                let ghost g4 = cx4.gcx();
                                                let mut cx4 = cx4;
                                                cx4.loop_depth = saved;
                                                if cx4.labels.len() > 0 {
                                                    cx4.labels.pop();
                                                }
                                                proof {
                                                    if g4.labels.len() == 0 {
                                                        assert(cx4.gcx().labels =~= g4.labels);
                                                    } else {
                                                        assert(cx4.gcx().labels
                                                            =~= g4.labels.drop_last());
                                                    }
                                                    assert(cx4.gcx() =~= GCx {
                                                        loop_depth: g3.loop_depth,
                                                        labels: if g4.labels.len() == 0 {
                                                            g4.labels
                                                        } else {
                                                            g4.labels.drop_last()
                                                        },
                                                        ..g4
                                                    });
                                                }
                                                Ok((
                                                    String::from_str("{").concat(it.as_str())
                                                        .concat("for(;").concat(tt.as_str())
                                                        .concat(";").concat(ut.as_str()).concat(
                                                        "){",
                                                    ).concat(bt.as_str()).concat(
                                                        label_name_exec(l).as_str(),
                                                    ).concat("_continue:;}").concat(
                                                        label_name_exec(l).as_str(),
                                                    ).concat("_break:;}"),
                                                    cx_pop(cx4),
                                                ))
                                            },
                                        }
                                    },
                                }
                            },
                        }
                    },
                }
            },
            _ => Err(CompileError::UnsupportedConstruct(l.clone())),
        },
        Stmt::FuncDecl(n, ps, fbody) => match lower_function(cfg, ps, fbody, cx) {
            Err(er) => Err(er),
            Ok((ft, cx1)) => Ok((
                local_name_exec(n).concat("=").concat(ft.as_str()).concat(";"),
                cx1,
            )),
        },
        Stmt::Return(init) => {
            if !cx.in_function {
                Err(CompileError::UnsupportedConstruct(
                    String::from_str("return outside of a function"),
                ))
            } else {
                match init {
                    Some(e) => match lower_expr(cfg, e, cx) {
                        Err(er) => Err(er),
                        Ok((t, cx1)) => Ok((
                            String::from_str("return ").concat(t.as_str()).concat(";"),
                            cx1,
                        )),
                    },
                    None => Ok((String::from_str("return JSValue::undefined();"), cx)),
                }
            }
        },
        Stmt::Throw(e) => match lower_expr(cfg, e, cx) {
            Err(er) => Err(er),
            Ok((t, cx1)) => {
                if cfg.feature_exceptions {
                    Ok((String::from_str("throw ").concat(t.as_str()).concat(";"), cx1))
                } else {
                    if cx1.trys.len() > 0 {
                        let id = cx1.trys[cx1.trys.len() - 1];
                        Ok((
                            String::from_str("__err_").concat(u64_to_string(id).as_str()).concat(
                                "=",
                            ).concat(t.as_str()).concat(";goto __handler_").concat(
                                u64_to_string(id).as_str(),
                            ).concat(";"),
                            cx1,
                        ))
                    } else {
                        Err(CompileError::UnsupportedConstruct(
                            String::from_str("throw without an enclosing try"),
                        ))
                    }
                }
            },
        },
        Stmt::Try(t, cv, c, f) => {
            if f.len() > 0 && (abrupt_list_exec(t, false) || abrupt_list_exec(c, false)) {
                return Err(CompileError::UnsupportedConstruct(
                    String::from_str("abrupt exit across finally"),
                ));
            }
            if cfg.feature_exceptions {
                match lower_block(cfg, t, cx) {
                    Err(er) => Err(er),
                    Ok((tt, cx1)) => {
                        let cxc = cx_push_empty(cx_declare(cx_push_block(cx1, c), cv, false));
                        match lower_stmts(cfg, c, cxc) {
                            Err(er) => Err(er),
                            Ok((ct, cx2)) => match lower_block(cfg, f, cx_pop(cx_pop(cx2))) {
                                Err(er) => Err(er),
                                Ok((ft, cx3)) => Ok((
                                    String::from_str("try{try{").concat(tt.as_str()).concat(
                                        "}catch(JSValue __caught){JSBox ",
                                    ).concat(local_name_exec(cv).as_str()).concat(
                                        "=JSBox(__caught);",
                                    ).concat(ct.as_str()).concat("}}catch(...){{").concat(
                                        ft.as_str(),
                                    ).concat("}throw;}{").concat(ft.as_str()).concat("}"),
                                    cx3,
                                )),
                            },
                        }
                    },
                }
            } else {
                let ghost g0 = cx.gcx();
                let id = cx.counter;
                let mut cx = cx;
                cx.counter = if cx.counter < 18446744073709551615u64 {
                    cx.counter + 1
                } else {
                    cx.counter
                };
                cx.trys.push(id);
                proof {
                    assert(cx.gcx() =~= GCx {
                        counter: bump(g0.counter),
                        trys: g0.trys.push(id),
                        ..g0
                    });
                }
                match lower_block(cfg, t, cx) {
                    Err(er) => Err(er),
                    Ok((tt, cx1)) => {
                        let ghost g1 = cx1.gcx();
                        let mut cx1 = cx1;
                        if cx1.trys.len() > 0 {
                            cx1.trys.pop();
                        }
                        proof {
                            assert(cx1.gcx() =~= GCx {
                                trys: if g1.trys.len() == 0 {
                                    g1.trys
                                } else {
                                    g1.trys.drop_last()
                                },
                                ..g1
                            });
                        }
                        let cxc = cx_push_empty(cx_declare(cx_push_block(cx1, c), cv, false));
                        match lower_stmts(cfg, c, cxc) {
                            Err(er) => Err(er),
                            Ok((ct, cx2)) => match lower_block(cfg, f, cx_pop(cx_pop(cx2))) {
                                Err(er) => Err(er),
                                Ok((ft, cx3)) => Ok((
                                    String::from_str("{JSValue __err_").concat(
                                        u64_to_string(id).as_str(),
                                    ).concat(";{").concat(tt.as_str()).concat("}goto __end_")
                                        .concat(u64_to_string(id).as_str()).concat(";__handler_")
                                        .concat(u64_to_string(id).as_str()).concat(":{JSBox ")
                                        .concat(local_name_exec(cv).as_str()).concat(
                                        "=JSBox(__err_",
                                    ).concat(u64_to_string(id).as_str()).concat(");").concat(
                                        ct.as_str(),
                                    ).concat("}__end_").concat(u64_to_string(id).as_str()).concat(
                                        ":;{",
                                    ).concat(ft.as_str()).concat("}}"),
                                    cx3,
                                )),
                            },
                        }
                    },
                }
            }
        },
        Stmt::Block(b) => match lower_block(cfg, b, cx) {
            Err(er) => Err(er),
            Ok((t, cx1)) => Ok((String::from_str("{").concat(t.as_str()).concat("}"), cx1)),
        },
    }
}

/// Pushes the scope of one `for` statement: its pending head binding.
fn cx_push_for(cx: Cx, init: &Option<Box<Stmt>>) -> (r: Cx)
    ensures
        r.gcx() == push_scope(cx.gcx(), GScope { is_fn: false, entries: for_pend(*init) }),
{
    let ghost g = cx.gcx();
    let mut entries: Vec<Entry> = Vec::new();
    match init {
        Some(s0) => match &**s0 {
            Stmt::Decl(k, x, _) => {
                if matches!(k, DeclKind::Let) || matches!(k, DeclKind::Const) {
                    entries.push(Entry { name: x.clone(), pending: true });
                }
            },
            _ => {},
        },
        None => {},
    }
    proof {
        assert(entries@.map_values(|e: Entry| e.gview()) =~= for_pend(*init));
    }
    let mut cx = cx;
    cx.scopes.push(Scope { is_fn: false, entries });
    proof {
        assert(cx.gcx().scopes =~= g.scopes.push(
            GScope { is_fn: false, entries: for_pend(*init) },
        ));
        assert(cx.gcx() =~= push_scope(g, GScope { is_fn: false, entries: for_pend(*init) }));
    }
    cx
}

/// The parts of a `for` statement sit below it in the measure.
proof fn lemma_for_parts_height(s: Stmt)
    requires
        s is For,
    ensures
        (match s->For_0 {
            Some(s0) => stmt_height(*s0) < stmt_height(s),
            None => true,
        }),
        (match s->For_1 {
            Some(e) => expr_height(e) < stmt_height(s),
            None => true,
        }),
        (match s->For_2 {
            Some(e) => expr_height(e) < stmt_height(s),
            None => true,
        }),
        stmts_height(s->For_3@) < stmt_height(s),
{
}

/// Whether `l` names an enclosing labeled loop.
fn label_known(cx: &Cx, l: &String) -> (r: bool)
    ensures
        r == cx.gcx().labels.contains(l@),
{
    let ghost gl = cx.gcx().labels;
    let n = cx.labels.len();
    let mut j: usize = 0;
    while j < n
        invariant
            0 <= j <= n,
            n == cx.labels@.len(),
            gl == cx.gcx().labels,
            forall|k: int| 0 <= k < j ==> gl[k] != l@,
        decreases n - j,
    {
        if cx.labels[j] == *l {
            proof {
                assert(gl[j as int] == l@);
            }
            return true;
        }
        j = j + 1;
    }
    proof {
        if gl.contains(l@) {
            let k = choose|k: int| 0 <= k < gl.len() && gl[k] == l@;
        }
    }
    false
}

/// Whether some statement among the first `j` could leave the enclosing
/// construct abruptly; `sh` tells that an enclosing loop would absorb an
/// unlabeled `break`/`continue`.
pub open spec fn abrupt_list(ss: Seq<Stmt>, j: int, sh: bool) -> bool
    decreases stmts_height(ss), j, 1int,
    via abrupt_list_decreases
{
    if j <= 0 || j > ss.len() {
        false
    } else {
        abrupt_stmt(ss[j - 1], sh) || abrupt_list(ss, j - 1, sh)
    }
}

#[via_fn]
proof fn abrupt_list_decreases(ss: Seq<Stmt>, j: int, sh: bool) {
    if !(j <= 0 || j > ss.len()) {
        lemma_stmts_height(ss);
    }
}

/// Whether one statement could leave the enclosing construct abruptly.
pub open spec fn abrupt_stmt(s: Stmt, sh: bool) -> bool
    decreases stmt_height(s), 0int, 0int,
{
    match s {
        Stmt::Return(_) => true,
        Stmt::Throw(_) => true,
        Stmt::Break(lab) => lab is Some || !sh,
        Stmt::Continue(lab) => lab is Some || !sh,
        Stmt::If(_, t, f) => abrupt_list(t@, t@.len() as int, sh) || abrupt_list(
            f@,
            f@.len() as int,
            sh,
        ),
        Stmt::While(_, b) => abrupt_list(b@, b@.len() as int, true),
        Stmt::DoWhile(b, _) => abrupt_list(b@, b@.len() as int, true),
        Stmt::For(init, _, _, b) => (match init {
            Some(s0) => abrupt_stmt(*s0, sh),
            None => false,
        }) || abrupt_list(b@, b@.len() as int, true),
        Stmt::Labeled(_, b) => abrupt_stmt(*b, sh),
        Stmt::Try(t, _, c, f) => abrupt_list(t@, t@.len() as int, sh) || abrupt_list(
            c@,
            c@.len() as int,
            sh,
        ) || abrupt_list(f@, f@.len() as int, sh),
        Stmt::Block(b) => abrupt_list(b@, b@.len() as int, sh),
        _ => false,
    }
}

fn abrupt_list_exec(ss: &Vec<Stmt>, sh: bool) -> (r: bool)
    ensures
        r == abrupt_list(ss@, ss@.len() as int, sh),
    decreases stmts_height(ss@), ss@.len(), 1int,
{
    let n = ss.len();
    let mut j: usize = 0;
    let mut found = false;
    while j < n
        invariant
            0 <= j <= n,
            n == ss@.len(),
            found == abrupt_list(ss@, j as int, sh),
        decreases n - j,
    {
        proof {
            lemma_stmts_height(ss@);
        }
        if abrupt_stmt_exec(&ss[j], sh) {
            found = true;
        }
        j = j + 1;
    }
    found
}

fn abrupt_stmt_exec(s: &Stmt, sh: bool) -> (r: bool)
    ensures
        r == abrupt_stmt(*s, sh),
    decreases stmt_height(*s), 0int, 0int,
{
    match s {
        Stmt::Return(_) => true,
        Stmt::Throw(_) => true,
        Stmt::Break(lab) => matches!(lab, Some(_)) || !sh,
        Stmt::Continue(lab) => matches!(lab, Some(_)) || !sh,
        Stmt::If(_, t, f) => abrupt_list_exec(t, sh) || abrupt_list_exec(f, sh),
        Stmt::While(_, b) => abrupt_list_exec(b, true),
        Stmt::DoWhile(b, _) => abrupt_list_exec(b, true),
        Stmt::For(init, _, _, b) => {
            let ai = match init {
                Some(s0) => abrupt_stmt_exec(&**s0, sh),
                None => false,
            };
            ai || abrupt_list_exec(b, true)
        },
        Stmt::Labeled(_, b) => abrupt_stmt_exec(&**b, sh),
        Stmt::Try(t, _, c, f) => abrupt_list_exec(t, sh) || abrupt_list_exec(c, sh)
            || abrupt_list_exec(f, sh),
        Stmt::Block(b) => abrupt_list_exec(b, sh),
        _ => false,
    }
}

/// The per-run configuration: the registry, the feature choice, and the
/// paired property manifest if one is available.
pub struct Transpiler {
    pub globals: GlobalRegistry,
    pub feature_exceptions: bool,
    pub manifest: Option<PropertyManifest>,
}

impl Transpiler {
    pub closed spec fn gcfg(&self) -> GCfg {
        GCfg {
            exceptions: self.feature_exceptions,
            globals: self.globals.bindings(),
            manifest_present: self.manifest is Some,
            manifest: if self.manifest is Some {
                self.manifest->0.names()
            } else {
                Seq::empty()
            },
        }
    }

    /// A fresh configuration: no globals, native exceptions on, no manifest.
    pub fn new() -> (r: Transpiler)
        ensures
            r.gcfg().exceptions == true,
            r.gcfg().globals == Seq::<GlobalBinding>::empty(),
            !r.gcfg().manifest_present,
    {
        Transpiler { globals: GlobalRegistry::new(), feature_exceptions: true, manifest: None }
    }

    /// Lowers one module to target source text, consuming the configured
    /// instance, or reports the first lowering error: exactly what
    /// `s_module` states.
    pub fn transpile_module(self, m: &Module) -> (r: Result<String, CompileError>)
        ensures
            match r {
                Ok(t) => s_module(*m, self.gcfg()) == Result::<Seq<char>, GErr>::Ok(t@),
                Err(e) => s_module(*m, self.gcfg()) == Result::<Seq<char>, GErr>::Err(
                    err_view(e),
                ),
            },
    {
        let mut hoisted: Vec<String> = Vec::new();
        proof {
            assert(hoisted@.map_values(|p: String| p@) =~= Seq::<Seq<char>>::empty());
        }
        hoist_list_exec(&m.body, &mut hoisted);
        let ghost gh = hoisted@.map_values(|p: String| p@);
        let mut entries = entries_of_names_exec(&hoisted);
        let ghost ge1 = entries@.map_values(|e: Entry| e.gview());
        let mut pend = pend_entries_exec(&m.body);
        let ghost ge2 = pend@.map_values(|e: Entry| e.gview());
        entries.append(&mut pend);
        proof {
            assert forall|k: int| 0 <= k < entries@.len() implies entries@.map_values(
                |e: Entry| e.gview(),
            )[k] == (ge1 + ge2)[k] by {
                if k < ge1.len() {
                }
            }
            assert(entries@.map_values(|e: Entry| e.gview()) =~= ge1 + ge2);
        }
        let mut scopes: Vec<Scope> = Vec::new();
        scopes.push(Scope { is_fn: true, entries });
        let cx0 = Cx {
            scopes,
            counter: 0,
            loop_depth: 0,
            labels: Vec::new(),
            trys: Vec::new(),
            in_function: false,
        };
        proof {
            assert(cx0.gcx().scopes =~= seq![
                GScope {
                    is_fn: true,
                    entries: entries_of_names(gh, gh.len() as int) + pend_entries(
                        m.body@,
                        m.body@.len() as int,
                    ),
                },
            ]);
            assert(cx0.gcx().labels =~= Seq::<Seq<char>>::empty());
            assert(cx0.gcx() =~= GCx {
                scopes: seq![
                    GScope {
                        is_fn: true,
                        entries: entries_of_names(gh, gh.len() as int) + pend_entries(
                            m.body@,
                            m.body@.len() as int,
                        ),
                    },
                ],
                counter: 0,
                loop_depth: 0,
                labels: Seq::empty(),
                trys: Seq::empty(),
                in_function: false,
            });
        }
        match lower_stmts(&self, &m.body, cx0) {
            Err(er) => Err(er),
            Ok((t, _)) => Ok(
                String::from_str("int main(){").concat(hoist_decls_exec(&hoisted, 0).as_str())
                    .concat(t.as_str()).concat("return 0;}"),
            ),
        }
    }
}

} // verus!
