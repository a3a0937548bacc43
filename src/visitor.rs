use vstd::prelude::*;
use crate::hints::{hint_verdict, lookup_hint_comments, CommentModel, CommentStore, IgnoreVerdict};
use crate::hints::{comment_verdict, file_ignored, first_verdict_from, should_ignore_file};
use crate::model::{fresh_model, FunctionModel, Position, BranchKind, BranchModel, CoverageModel, Range, SourceCoverage};
use crate::tree::{branch_count, fn_count, expr_range, range_of_expr, range_of_stmt, stmt_range, Expr, Program, Stmt};

verus! {

/// The zero counts of a new branch, one per arm.
pub open spec fn zero_arms(bm: BranchModel) -> Seq<u32> {
    Seq::new(bm.locations.len(), |i: int| 0u32)
}

/// `m` with the branches `bs` and the functions `fs` registered after its
/// own, each with zero counts.
pub open spec fn add_nodes(m: CoverageModel, bs: Seq<BranchModel>, fs: Seq<FunctionModel>) -> CoverageModel {
    CoverageModel {
        fn_map: m.fn_map + fs,
        f: m.f + Seq::new(fs.len(), |i: int| 0u32),
        branch_map: m.branch_map + bs,
        b: m.b + bs.map_values(|bm: BranchModel| zero_arms(bm)),
        b_t: match m.b_t {
            Some(t) => Some(t + bs.map_values(|bm: BranchModel| zero_arms(bm))),
            None => None,
        },
        ..m
    }
}

/// The record of a two-armed branch.
pub open spec fn two_arm_branch(kind: BranchKind, r: Range, x: Expr, y: Expr) -> BranchModel {
    BranchModel { kind, locations: seq![expr_range(x), expr_range(y)], loc: r }
}

/// The record of a function with an expression body.
pub open spec fn fn_record(r: Range, name: Option<String>, body: Expr) -> FunctionModel {
    FunctionModel {
        name: match name {
            Some(n) => Some(n@),
            None => None,
        },
        decl: r,
        loc: expr_range(body),
    }
}

/// Whether the comments ask to skip the node at `r`.
pub open spec fn skipped(cs: Seq<CommentModel>, r: Range) -> bool {
    hint_verdict(cs, r.start, r.end) == IgnoreVerdict::Next
}

/// The branches that instrumenting `e` registers, outer before inner and
/// left before right.
pub open spec fn expr_branches(e: Expr, cs: Seq<CommentModel>) -> Seq<BranchModel>
    decreases e,
{
    match e {
        Expr::Paren(_, x) => expr_branches(*x, cs),
        Expr::Fn(_, _, x) => expr_branches(*x, cs),
        Expr::BranchHit(_, _, x) => expr_branches(*x, cs),
        Expr::FunctionHit(_, x) => expr_branches(*x, cs),
        Expr::Cond(r, t, c, a) => {
            let inner = expr_branches(*t, cs) + expr_branches(*c, cs) + expr_branches(*a, cs);
            if skipped(cs, r) {
                inner
            } else {
                seq![two_arm_branch(BranchKind::CondExpr, r, *c, *a)] + inner
            }
        },
        Expr::Logical(r, _, x, y) => {
            let inner = expr_branches(*x, cs) + expr_branches(*y, cs);
            if skipped(cs, r) {
                inner
            } else {
                seq![two_arm_branch(BranchKind::BinaryExpr, r, *x, *y)] + inner
            }
        },
        _ => Seq::empty(),
    }
}

/// The functions that instrumenting `e` registers, outer before inner and
/// left before right.
pub open spec fn expr_functions(e: Expr, cs: Seq<CommentModel>) -> Seq<FunctionModel>
    decreases e,
{
    match e {
        Expr::Paren(_, x) => expr_functions(*x, cs),
        Expr::BranchHit(_, _, x) => expr_functions(*x, cs),
        Expr::FunctionHit(_, x) => expr_functions(*x, cs),
        Expr::Cond(_, t, c, a) => expr_functions(*t, cs) + expr_functions(*c, cs) + expr_functions(*a, cs),
        Expr::Logical(_, _, x, y) => expr_functions(*x, cs) + expr_functions(*y, cs),
        Expr::Fn(r, name, x) => if skipped(cs, r) {
            expr_functions(*x, cs)
        } else {
            seq![fn_record(r, name, *x)] + expr_functions(*x, cs)
        },
        _ => Seq::empty(),
    }
}

/// `x` counted as arm `arm` of branch `id`, unless the comments ask to skip it.
pub open spec fn wrap_arm(x: Expr, id: nat, arm: nat, skip: bool) -> Expr {
    if skip {
        x
    } else {
        Expr::BranchHit(id as usize, arm as usize, Box::new(x))
    }
}

/// `e` rewritten with its branch ids allocated from `bb` on and its
/// function ids from `fb` on.
pub open spec fn instr_expr(e: Expr, cs: Seq<CommentModel>, bb: nat, fb: nat) -> Expr
    decreases e,
{
    match e {
        Expr::Paren(r, x) => Expr::Paren(r, Box::new(instr_expr(*x, cs, bb, fb))),
        Expr::BranchHit(id, arm, x) => Expr::BranchHit(id, arm, Box::new(instr_expr(*x, cs, bb, fb))),
        Expr::FunctionHit(id, x) => Expr::FunctionHit(id, Box::new(instr_expr(*x, cs, bb, fb))),
        Expr::Fn(r, name, x) => if skipped(cs, r) {
            Expr::Fn(r, name, Box::new(instr_expr(*x, cs, bb, fb)))
        } else {
            Expr::Fn(r, name, Box::new(Expr::FunctionHit(fb as usize, Box::new(instr_expr(*x, cs, bb, fb + 1)))))
        },
        Expr::Cond(r, t, c, a) => {
            let own: nat = if skipped(cs, r) { 0 } else { 1 };
            let bc = bb + own + expr_branches(*t, cs).len();
            let ba = bc + expr_branches(*c, cs).len();
            let fc = fb + expr_functions(*t, cs).len();
            let fa = fc + expr_functions(*c, cs).len();
            let t2 = instr_expr(*t, cs, bb + own, fb);
            let c2 = instr_expr(*c, cs, bc, fc);
            let a2 = instr_expr(*a, cs, ba, fa);
            if own == 0 {
                Expr::Cond(r, Box::new(t2), Box::new(c2), Box::new(a2))
            } else {
                Expr::Cond(
                    r,
                    Box::new(t2),
                    Box::new(wrap_arm(c2, bb, 0, skipped(cs, expr_range(*c)))),
                    Box::new(wrap_arm(a2, bb, 1, skipped(cs, expr_range(*a)))),
                )
            }
        },
        Expr::Logical(r, op, x, y) => {
            let own: nat = if skipped(cs, r) { 0 } else { 1 };
            let by = bb + own + expr_branches(*x, cs).len();
            let fy = fb + expr_functions(*x, cs).len();
            let x2 = instr_expr(*x, cs, bb + own, fb);
            let y2 = instr_expr(*y, cs, by, fy);
            if own == 0 {
                Expr::Logical(r, op, Box::new(x2), Box::new(y2))
            } else {
                Expr::Logical(
                    r,
                    op,
                    Box::new(wrap_arm(x2, bb, 0, skipped(cs, expr_range(*x)))),
                    Box::new(wrap_arm(y2, bb, 1, skipped(cs, expr_range(*y)))),
                )
            }
        },
        _ => e,
    }
}

proof fn lemma_add_nodes_concat(
    m: CoverageModel,
    b1: Seq<BranchModel>,
    f1: Seq<FunctionModel>,
    b2: Seq<BranchModel>,
    f2: Seq<FunctionModel>,
)
    ensures
        add_nodes(add_nodes(m, b1, f1), b2, f2) == add_nodes(m, b1 + b2, f1 + f2),
{
    let f = |bm: BranchModel| zero_arms(bm);
    assert((b1 + b2).map_values(f) =~= b1.map_values(f) + b2.map_values(f));
    assert(m.b + b1.map_values(f) + b2.map_values(f) =~= m.b + (b1 + b2).map_values(f));
    assert(m.f + Seq::new(f1.len(), |i: int| 0u32) + Seq::new(f2.len(), |i: int| 0u32)
        =~= m.f + Seq::new((f1 + f2).len(), |i: int| 0u32));
    if m.b_t is Some {
        let t = m.b_t->Some_0;
        assert(t + b1.map_values(f) + b2.map_values(f) =~= t + (b1 + b2).map_values(f));
    }
    assert(add_nodes(add_nodes(m, b1, f1), b2, f2) =~= add_nodes(m, b1 + b2, f1 + f2));
}

proof fn lemma_add_no_nodes(m: CoverageModel)
    ensures
        add_nodes(m, Seq::empty(), Seq::empty()) == m,
{
    let f = |bm: BranchModel| zero_arms(bm);
    assert(Seq::<BranchModel>::empty().map_values(f) =~= Seq::empty());
    assert(m.b + Seq::<Seq<u32>>::empty() =~= m.b);
    assert(m.f + Seq::new(0, |i: int| 0u32) =~= m.f);
    if m.b_t is Some {
        let t = m.b_t->Some_0;
        assert(t + Seq::<Seq<u32>>::empty() =~= t);
    }
    assert(add_nodes(m, Seq::empty(), Seq::empty()) =~= m);
}

/// Registers a two-armed branch unless `skip`; returns its id, or 0.
fn own_branch(cov: &mut SourceCoverage, skip: bool, kind: BranchKind, r: Range, x: &Expr, y: &Expr) -> (id: usize)
    requires
        old(cov).wf(),
        !old(cov).frozen(),
    ensures
        final(cov).wf(),
        !final(cov).frozen(),
        !skip ==> id == old(cov)@.branch_map.len(),
        final(cov)@ == add_nodes(
            old(cov)@,
            if skip { Seq::empty() } else { seq![two_arm_branch(kind, r, *x, *y)] },
            Seq::empty(),
        ),
{
    let ghost m0 = cov@;
    if skip {
        proof {
            lemma_add_no_nodes(m0);
        }
        0
    } else {
        let rx = range_of_expr(x);
        let ry = range_of_expr(y);
        let locations = vec![rx, ry];
        assert(locations@ =~= seq![rx, ry]);
        let id = cov.new_branch(kind, locations, r);
        proof {
            let own = seq![two_arm_branch(kind, r, *x, *y)];
            let f = |bm: BranchModel| zero_arms(bm);
            assert(own.map_values(f) =~= seq![Seq::new(2, |i: int| 0u32)]);
            assert(m0.f + Seq::new(0, |i: int| 0u32) =~= m0.f);
            assert(m0.fn_map + Seq::<FunctionModel>::empty() =~= m0.fn_map);
            assert(cov@ =~= add_nodes(m0, own, Seq::empty()));
        }
        id
    }
}

/// Instruments `e`: registers a two-arm branch for each conditional and
/// short-circuit, and a function for each function, whose own verdict is not
/// `Next`; counts each arm whose verdict is not `Next` and each registered
/// function's calls; and descends into every sub-expression.
pub fn instrument_expr(cov: &mut SourceCoverage, cs: &CommentStore, e: Expr) -> (r: Expr)
    requires
        old(cov).wf(),
        !old(cov).frozen(),
    ensures
        final(cov).wf(),
        !final(cov).frozen(),
        r == instr_expr(e, cs@, old(cov)@.branch_map.len(), old(cov)@.fn_map.len()),
        final(cov)@ == add_nodes(old(cov)@, expr_branches(e, cs@), expr_functions(e, cs@)),
    decreases e,
{
    let ghost m0 = cov@;
    match e {
        Expr::Paren(r, x) => {
            let x2 = instrument_expr(cov, cs, *x);
            Expr::Paren(r, Box::new(x2))
        },
        Expr::BranchHit(id, arm, x) => {
            let x2 = instrument_expr(cov, cs, *x);
            Expr::BranchHit(id, arm, Box::new(x2))
        },
        Expr::FunctionHit(id, x) => {
            let x2 = instrument_expr(cov, cs, *x);
            Expr::FunctionHit(id, Box::new(x2))
        },
        Expr::Fn(r, name, x) => {
            let v = lookup_hint_comments(cs, r.start, r.end);
            if v == IgnoreVerdict::Next {
                let x2 = instrument_expr(cov, cs, *x);
                Expr::Fn(r, name, Box::new(x2))
            } else {
                let loc = range_of_expr(&x);
                let copy = match &name {
                    Some(n) => Some(n.clone()),
                    None => None,
                };
                let id = cov.new_function(copy, r, loc);
                let ghost m1 = cov@;
                let ghost gx = *x;
                let x2 = instrument_expr(cov, cs, *x);
                proof {
                    let own = seq![fn_record(r, name, gx)];
                    assert(m1 =~= add_nodes(m0, Seq::empty(), own));
                    lemma_add_nodes_concat(m0, Seq::empty(), own, expr_branches(gx, cs@), expr_functions(gx, cs@));
                    assert(Seq::<BranchModel>::empty() + expr_branches(gx, cs@) =~= expr_branches(gx, cs@));
                }
                Expr::Fn(r, name, Box::new(Expr::FunctionHit(id, Box::new(x2))))
            }
        },
        Expr::Cond(r, t, c, a) => {
            let v = lookup_hint_comments(cs, r.start, r.end);
            let skip = v == IgnoreVerdict::Next;
            let ghost (gt, gc, ga) = (*t, *c, *a);
            let id = own_branch(cov, skip, BranchKind::CondExpr, r, &c, &a);
            let ghost own = if skip { Seq::empty() } else { seq![two_arm_branch(BranchKind::CondExpr, r, gc, ga)] };
            let rc = range_of_expr(&c);
            let ra = range_of_expr(&a);
            let t2 = instrument_expr(cov, cs, *t);
            let c2 = instrument_expr(cov, cs, *c);
            let a2 = instrument_expr(cov, cs, *a);
            proof {
                let e0 = Seq::<FunctionModel>::empty();
                lemma_add_nodes_concat(m0, own, e0, expr_branches(gt, cs@), expr_functions(gt, cs@));
                lemma_add_nodes_concat(m0, own + expr_branches(gt, cs@), e0 + expr_functions(gt, cs@),
                    expr_branches(gc, cs@), expr_functions(gc, cs@));
                lemma_add_nodes_concat(m0, own + expr_branches(gt, cs@) + expr_branches(gc, cs@),
                    e0 + expr_functions(gt, cs@) + expr_functions(gc, cs@),
                    expr_branches(ga, cs@), expr_functions(ga, cs@));
                assert(own + expr_branches(gt, cs@) + expr_branches(gc, cs@) + expr_branches(ga, cs@)
                    =~= expr_branches(e, cs@));
                assert(e0 + expr_functions(gt, cs@) + expr_functions(gc, cs@) + expr_functions(ga, cs@)
                    =~= expr_functions(e, cs@));
            }
            if skip {
                Expr::Cond(r, Box::new(t2), Box::new(c2), Box::new(a2))
            } else {
                let c3 = if lookup_hint_comments(cs, rc.start, rc.end) == IgnoreVerdict::Next {
                    c2
                } else {
                    Expr::BranchHit(id, 0, Box::new(c2))
                };
                let a3 = if lookup_hint_comments(cs, ra.start, ra.end) == IgnoreVerdict::Next {
                    a2
                } else {
                    Expr::BranchHit(id, 1, Box::new(a2))
                };
                Expr::Cond(r, Box::new(t2), Box::new(c3), Box::new(a3))
            }
        },
        Expr::Logical(r, op, x, y) => {
            let v = lookup_hint_comments(cs, r.start, r.end);
            let skip = v == IgnoreVerdict::Next;
            let ghost (gx, gy) = (*x, *y);
            let id = own_branch(cov, skip, BranchKind::BinaryExpr, r, &x, &y);
            let ghost own = if skip { Seq::empty() } else { seq![two_arm_branch(BranchKind::BinaryExpr, r, gx, gy)] };
            let rx = range_of_expr(&x);
            let ry = range_of_expr(&y);
            let x2 = instrument_expr(cov, cs, *x);
            let y2 = instrument_expr(cov, cs, *y);
            proof {
                let e0 = Seq::<FunctionModel>::empty();
                lemma_add_nodes_concat(m0, own, e0, expr_branches(gx, cs@), expr_functions(gx, cs@));
                lemma_add_nodes_concat(m0, own + expr_branches(gx, cs@), e0 + expr_functions(gx, cs@),
                    expr_branches(gy, cs@), expr_functions(gy, cs@));
                assert(own + expr_branches(gx, cs@) + expr_branches(gy, cs@) =~= expr_branches(e, cs@));
                assert(e0 + expr_functions(gx, cs@) + expr_functions(gy, cs@) =~= expr_functions(e, cs@));
            }
            if skip {
                Expr::Logical(r, op, Box::new(x2), Box::new(y2))
            } else {
                let x3 = if lookup_hint_comments(cs, rx.start, rx.end) == IgnoreVerdict::Next {
                    x2
                } else {
                    Expr::BranchHit(id, 0, Box::new(x2))
                };
                let y3 = if lookup_hint_comments(cs, ry.start, ry.end) == IgnoreVerdict::Next {
                    y2
                } else {
                    Expr::BranchHit(id, 1, Box::new(y2))
                };
                Expr::Logical(r, op, Box::new(x3), Box::new(y3))
            }
        },
        Expr::Ident(r, n) => {
            proof {
                lemma_add_no_nodes(m0);
            }
            Expr::Ident(r, n)
        },
        Expr::Num(r, n) => {
            proof {
                lemma_add_no_nodes(m0);
            }
            Expr::Num(r, n)
        },
    }
}

/// `m` with the statements `rs` registered after its own, each with a zero count.
pub open spec fn add_statements(m: CoverageModel, rs: Seq<Range>) -> CoverageModel {
    CoverageModel {
        statement_map: m.statement_map + rs,
        s: m.s + Seq::new(rs.len(), |i: int| 0u32),
        ..m
    }
}

/// `m` with the statements `ss`, the branches `bs` and the functions `fs`
/// registered after its own, each with zero counts.
pub open spec fn add_all(m: CoverageModel, ss: Seq<Range>, bs: Seq<BranchModel>, fs: Seq<FunctionModel>) -> CoverageModel {
    add_statements(add_nodes(m, bs, fs), ss)
}

proof fn lemma_add_all_concat(
    m: CoverageModel,
    s1: Seq<Range>,
    b1: Seq<BranchModel>,
    f1: Seq<FunctionModel>,
    s2: Seq<Range>,
    b2: Seq<BranchModel>,
    f2: Seq<FunctionModel>,
)
    ensures
        add_all(add_all(m, s1, b1, f1), s2, b2, f2) == add_all(m, s1 + s2, b1 + b2, f1 + f2),
{
    lemma_add_nodes_concat(m, b1, f1, b2, f2);
    assert(m.s + Seq::new(s1.len(), |i: int| 0u32) + Seq::new(s2.len(), |i: int| 0u32)
        =~= m.s + Seq::new((s1 + s2).len(), |i: int| 0u32));
    assert(m.statement_map + s1 + s2 =~= m.statement_map + (s1 + s2));
    assert(add_all(add_all(m, s1, b1, f1), s2, b2, f2) =~= add_all(m, s1 + s2, b1 + b2, f1 + f2));
}

proof fn lemma_add_none(m: CoverageModel)
    ensures
        add_all(m, Seq::empty(), Seq::empty(), Seq::empty()) == m,
{
    lemma_add_no_nodes(m);
    assert(m.statement_map + Seq::<Range>::empty() =~= m.statement_map);
    assert(m.s + Seq::new(0, |i: int| 0u32) =~= m.s);
    assert(add_all(m, Seq::empty(), Seq::empty(), Seq::empty()) =~= m);
}

/// Whether a statement gets its own counter: an expression statement, a
/// declaration or an `if` whose verdict is not `Next`.
pub open spec fn stmt_counted(s: Stmt, cs: Seq<CommentModel>) -> bool {
    match s {
        Stmt::Expr(r, _) => !skipped(cs, r),
        Stmt::VarDecl(r, _, _) => !skipped(cs, r),
        Stmt::If(r, _, _, _) => !skipped(cs, r),
        _ => false,
    }
}

/// The statement's own counter, if it gets one.
pub open spec fn own_statement(s: Stmt, cs: Seq<CommentModel>) -> Seq<Range> {
    if stmt_counted(s, cs) {
        seq![stmt_range(s)]
    } else {
        Seq::empty()
    }
}

/// The range of the alternate arm of an `if`; a missing `else` has the
/// range of the whole `if`.
pub open spec fn alt_range(r: Range, a: Option<Box<Stmt>>) -> Range {
    match a {
        Some(x) => stmt_range(*x),
        None => r,
    }
}

/// The branch record of an `if`.
pub open spec fn if_branch(r: Range, c: Stmt, a: Option<Box<Stmt>>) -> BranchModel {
    BranchModel { kind: BranchKind::If, locations: seq![stmt_range(c), alt_range(r, a)], loc: r }
}

/// The `if`'s own branch, unless its verdict is `Next`.
pub open spec fn own_if_branch(s: Stmt, cs: Seq<CommentModel>) -> Seq<BranchModel> {
    match s {
        Stmt::If(r, _, c, a) => if skipped(cs, r) {
            Seq::empty()
        } else {
            seq![if_branch(r, *c, a)]
        },
        _ => Seq::empty(),
    }
}

/// The statements that instrumenting `s` registers, in source order.
pub open spec fn stmt_statements(s: Stmt, cs: Seq<CommentModel>) -> Seq<Range>
    decreases s,
{
    match s {
        Stmt::If(_, _, c, a) => own_statement(s, cs) + stmt_statements(*c, cs) + match a {
            Some(x) => stmt_statements(*x, cs),
            None => Seq::empty(),
        },
        _ => own_statement(s, cs),
    }
}

/// The branches that instrumenting `s` registers.
pub open spec fn stmt_branches(s: Stmt, cs: Seq<CommentModel>) -> Seq<BranchModel>
    decreases s,
{
    match s {
        Stmt::Expr(_, e) => expr_branches(e, cs),
        Stmt::VarDecl(_, _, e) => expr_branches(e, cs),
        Stmt::If(_, t, c, a) => own_if_branch(s, cs) + expr_branches(t, cs) + stmt_branches(*c, cs)
            + match a {
            Some(x) => stmt_branches(*x, cs),
            None => Seq::empty(),
        },
        _ => Seq::empty(),
    }
}

/// The functions that instrumenting `s` registers.
pub open spec fn stmt_functions(s: Stmt, cs: Seq<CommentModel>) -> Seq<FunctionModel>
    decreases s,
{
    match s {
        Stmt::Expr(_, e) => expr_functions(e, cs),
        Stmt::VarDecl(_, _, e) => expr_functions(e, cs),
        Stmt::If(_, t, c, a) => expr_functions(t, cs) + stmt_functions(*c, cs) + match a {
            Some(x) => stmt_functions(*x, cs),
            None => Seq::empty(),
        },
        _ => Seq::empty(),
    }
}

/// Whether the consequent of an `if` with verdict `v` goes uncounted.
pub open spec fn skip_cons(cs: Seq<CommentModel>, v: IgnoreVerdict, c: Stmt) -> bool {
    v == IgnoreVerdict::If || skipped(cs, stmt_range(c))
}

/// Whether the alternate of an `if` with verdict `v` goes uncounted.
pub open spec fn skip_alt(cs: Seq<CommentModel>, v: IgnoreVerdict, r: Range, a: Option<Box<Stmt>>) -> bool {
    v == IgnoreVerdict::Else || skipped(cs, alt_range(r, a))
}

/// `x` counted as arm `arm` of branch `id`, unless `skip`.
pub open spec fn wrap_stmt_arm(x: Stmt, id: nat, arm: nat, skip: bool) -> Stmt {
    if skip {
        x
    } else {
        Stmt::CountedArm(id as usize, arm as usize, Box::new(x))
    }
}

/// `s` rewritten, where `sid` is the id of its own counter if it has one,
/// and the ids of what it holds follow: statements from `sid` on (after its
/// own), branches from `bid` on, functions from `fid` on. Each arm of a
/// counted `if` counts itself unless it is skipped; a missing `else` becomes
/// an arm that only counts.
pub open spec fn rewritten(s: Stmt, cs: Seq<CommentModel>, sid: nat, bid: nat, fid: nat) -> Stmt
    decreases s, 0nat,
{
    match s {
        Stmt::Expr(r, e) => Stmt::Expr(r, instr_expr(e, cs, bid, fid)),
        Stmt::VarDecl(r, n, e) => Stmt::VarDecl(r, n, instr_expr(e, cs, bid, fid)),
        Stmt::If(r, t, c, a) => {
            let v = hint_verdict(cs, r.start, r.end);
            let own = own_if_branch(s, cs).len();
            let sc = sid + own_statement(s, cs).len();
            let bt = bid + own;
            let bc = bt + expr_branches(t, cs).len();
            let fc = fid + expr_functions(t, cs).len();
            let sa = sc + stmt_statements(*c, cs).len();
            let ba = bc + stmt_branches(*c, cs).len();
            let fa = fc + stmt_functions(*c, cs).len();
            let c1 = as_arm(*c, cs, sc, bc, fc);
            let c2 = if own == 0 { c1 } else { wrap_stmt_arm(c1, bid, 0, skip_cons(cs, v, *c)) };
            let a2 = match a {
                Some(x) => {
                    let a1 = as_arm(*x, cs, sa, ba, fa);
                    Some(Box::new(if own == 0 { a1 } else { wrap_stmt_arm(a1, bid, 1, skip_alt(cs, v, r, a)) }))
                },
                None => if own == 0 || skip_alt(cs, v, r, a) {
                    None
                } else {
                    Some(Box::new(Stmt::BranchArmHit(bid as usize, 1)))
                },
            };
            Stmt::If(r, instr_expr(t, cs, bt, fid), Box::new(c2), a2)
        },
        _ => s,
    }
}

/// `s` as one statement: rewritten, and wrapped in its counter if it has one.
pub open spec fn as_arm(s: Stmt, cs: Seq<CommentModel>, sid: nat, bid: nat, fid: nat) -> Stmt
    decreases s, 1nat,
{
    if stmt_counted(s, cs) {
        Stmt::Counted(sid as usize, Box::new(rewritten(s, cs, sid, bid, fid)))
    } else {
        rewritten(s, cs, sid, bid, fid)
    }
}

/// What a top-level statement becomes: its counter, when it has one, then
/// itself rewritten.
pub open spec fn stmt_out(s: Stmt, cs: Seq<CommentModel>, sid: nat, bid: nat, fid: nat) -> Seq<Stmt> {
    if stmt_counted(s, cs) {
        seq![Stmt::StatementHit(sid as usize), rewritten(s, cs, sid, bid, fid)]
    } else {
        seq![rewritten(s, cs, sid, bid, fid)]
    }
}

/// The statements registered by the first `n` statements of `body`.
pub open spec fn body_statements(body: Seq<Stmt>, cs: Seq<CommentModel>, n: nat) -> Seq<Range>
    decreases n,
{
    if n == 0 || n > body.len() {
        Seq::empty()
    } else {
        body_statements(body, cs, (n - 1) as nat) + stmt_statements(body[n - 1], cs)
    }
}

/// The branches registered by the first `n` statements of `body`.
pub open spec fn body_branches(body: Seq<Stmt>, cs: Seq<CommentModel>, n: nat) -> Seq<BranchModel>
    decreases n,
{
    if n == 0 || n > body.len() {
        Seq::empty()
    } else {
        body_branches(body, cs, (n - 1) as nat) + stmt_branches(body[n - 1], cs)
    }
}

/// The functions registered by the first `n` statements of `body`.
pub open spec fn body_functions(body: Seq<Stmt>, cs: Seq<CommentModel>, n: nat) -> Seq<FunctionModel>
    decreases n,
{
    if n == 0 || n > body.len() {
        Seq::empty()
    } else {
        body_functions(body, cs, (n - 1) as nat) + stmt_functions(body[n - 1], cs)
    }
}

/// What the first `n` statements of `body` become, ids from 0 on.
pub open spec fn body_out(body: Seq<Stmt>, cs: Seq<CommentModel>, n: nat) -> Seq<Stmt>
    decreases n,
{
    if n == 0 || n > body.len() {
        Seq::empty()
    } else {
        body_out(body, cs, (n - 1) as nat) + stmt_out(
            body[n - 1],
            cs,
            body_statements(body, cs, (n - 1) as nat).len(),
            body_branches(body, cs, (n - 1) as nat).len(),
            body_functions(body, cs, (n - 1) as nat).len(),
        )
    }
}

/// The report after instrumenting the whole of `body`.
pub open spec fn body_model(m0: CoverageModel, body: Seq<Stmt>, cs: Seq<CommentModel>) -> CoverageModel {
    add_all(
        m0,
        body_statements(body, cs, body.len()),
        body_branches(body, cs, body.len()),
        body_functions(body, cs, body.len()),
    )
}

/// Registers the statement counter of `r` unless `skip`; returns its id.
fn own_statement_counter(cov: &mut SourceCoverage, skip: bool, r: Range) -> (id: Option<usize>)
    requires
        old(cov).wf(),
        !old(cov).frozen(),
    ensures
        final(cov).wf(),
        !final(cov).frozen(),
        final(cov)@ == add_all(old(cov)@, if skip { Seq::empty() } else { seq![r] }, Seq::empty(), Seq::empty()),
        id == if skip { None } else { Some(old(cov)@.statement_map.len() as usize) },
{
    let ghost m0 = cov@;
    proof {
        lemma_add_none(m0);
    }
    if !skip {
        let id = cov.new_statement(r);
        proof {
            lemma_add_no_nodes(m0);
            assert(cov@ =~= add_all(m0, seq![r], Seq::empty(), Seq::empty()));
        }
        Some(id)
    } else {
        None
    }
}

/// Instruments one statement: registers its own counter, when it gets one,
/// then what it holds; returns that counter's id and the rewritten statement.
fn instrument_stmt(cov: &mut SourceCoverage, cs: &CommentStore, s: Stmt) -> (r: (Option<usize>, Stmt))
    requires
        old(cov).wf(),
        !old(cov).frozen(),
    ensures
        final(cov).wf(),
        !final(cov).frozen(),
        r.0 == if stmt_counted(s, cs@) { Some(old(cov)@.statement_map.len() as usize) } else { None },
        r.1 == rewritten(s, cs@, old(cov)@.statement_map.len(), old(cov)@.branch_map.len(), old(cov)@.fn_map.len()),
        final(cov)@ == add_all(old(cov)@, stmt_statements(s, cs@), stmt_branches(s, cs@), stmt_functions(s, cs@)),
    decreases s,
{
    let ghost m0 = cov@;
    let ghost gs = s;
    let ghost e0 = Seq::<BranchModel>::empty();
    let ghost f0 = Seq::<FunctionModel>::empty();
    let ghost r0 = Seq::<Range>::empty();
    match s {
        Stmt::Expr(r, e) => {
            let v = lookup_hint_comments(cs, r.start, r.end);
            let sid = own_statement_counter(cov, v == IgnoreVerdict::Next, r);
            let ghost m1 = cov@;
            let ghost ge = e;
            let e2 = instrument_expr(cov, cs, e);
            proof {
                assert(cov@ == add_all(m1, r0, expr_branches(ge, cs@), expr_functions(ge, cs@)));
                lemma_add_all_concat(m0, own_statement(gs, cs@), e0, f0, r0, expr_branches(ge, cs@), expr_functions(ge, cs@));
                assert(own_statement(gs, cs@) + r0 =~= stmt_statements(gs, cs@));
                assert(e0 + expr_branches(ge, cs@) =~= stmt_branches(gs, cs@));
                assert(f0 + expr_functions(ge, cs@) =~= stmt_functions(gs, cs@));
            }
            (sid, Stmt::Expr(r, e2))
        },
        Stmt::VarDecl(r, n, e) => {
            let v = lookup_hint_comments(cs, r.start, r.end);
            let sid = own_statement_counter(cov, v == IgnoreVerdict::Next, r);
            let ghost m1 = cov@;
            let ghost ge = e;
            let e2 = instrument_expr(cov, cs, e);
            proof {
                assert(cov@ == add_all(m1, r0, expr_branches(ge, cs@), expr_functions(ge, cs@)));
                lemma_add_all_concat(m0, own_statement(gs, cs@), e0, f0, r0, expr_branches(ge, cs@), expr_functions(ge, cs@));
                assert(own_statement(gs, cs@) + r0 =~= stmt_statements(gs, cs@));
                assert(e0 + expr_branches(ge, cs@) =~= stmt_branches(gs, cs@));
                assert(f0 + expr_functions(ge, cs@) =~= stmt_functions(gs, cs@));
            }
            (sid, Stmt::VarDecl(r, n, e2))
        },
        Stmt::If(r, t, c, a) => {
            let v = lookup_hint_comments(cs, r.start, r.end);
            let skip = v == IgnoreVerdict::Next;
            let sid = own_statement_counter(cov, skip, r);
            let ghost m1 = cov@;
            let ghost (gt, gc, ga) = (t, *c, a);
            let cr = range_of_stmt(&c);
            let ar = match &a {
                Some(x) => range_of_stmt(x),
                None => r,
            };
            let mut id: usize = 0;
            if !skip {
                let locations = vec![cr, ar];
                assert(locations@ =~= seq![cr, ar]);
                id = cov.new_branch(BranchKind::If, locations, r);
                proof {
                    let f = |bm: BranchModel| zero_arms(bm);
                    let own = seq![if_branch(r, gc, ga)];
                    assert(own.map_values(f) =~= seq![Seq::new(2, |i: int| 0u32)]);
                    assert(m1.f + Seq::new(0, |i: int| 0u32) =~= m1.f);
                    assert(m1.fn_map + f0 =~= m1.fn_map);
                    assert(m1.statement_map + r0 =~= m1.statement_map);
                    assert(m1.s + Seq::new(0, |i: int| 0u32) =~= m1.s);
                    assert(cov@ =~= add_all(m1, r0, own, f0));
                }
            } else {
                proof {
                    lemma_add_none(m1);
                }
            }
            let t2 = instrument_expr(cov, cs, t);
            let skip_c = v == IgnoreVerdict::If || lookup_hint_comments(cs, cr.start, cr.end) == IgnoreVerdict::Next;
            let skip_a = v == IgnoreVerdict::Else || lookup_hint_comments(cs, ar.start, ar.end) == IgnoreVerdict::Next;
            let (cid, c1) = instrument_stmt(cov, cs, *c);
            let c1 = match cid {
                Some(k) => Stmt::Counted(k, Box::new(c1)),
                None => c1,
            };
            let c2 = if skip || skip_c { c1 } else { Stmt::CountedArm(id, 0, Box::new(c1)) };
            let ghost m4 = cov@;
            let a2 = match a {
                Some(x) => {
                    let (aid, a1) = instrument_stmt(cov, cs, *x);
                    let a1 = match aid {
                        Some(k) => Stmt::Counted(k, Box::new(a1)),
                        None => a1,
                    };
                    Some(Box::new(if skip || skip_a { a1 } else { Stmt::CountedArm(id, 1, Box::new(a1)) }))
                },
                None => {
                    if skip || skip_a {
                        None
                    } else {
                        Some(Box::new(Stmt::BranchArmHit(id, 1)))
                    }
                },
            };
            proof {
                let own_s = own_statement(gs, cs@);
                let own_b = own_if_branch(gs, cs@);
                let sa: Seq<Range> = match ga { Some(x) => stmt_statements(*x, cs@), None => Seq::empty() };
                let ba: Seq<BranchModel> = match ga { Some(x) => stmt_branches(*x, cs@), None => Seq::empty() };
                let fa: Seq<FunctionModel> = match ga { Some(x) => stmt_functions(*x, cs@), None => Seq::empty() };
                if ga is None {
                    lemma_add_none(m4);
                }
                lemma_add_all_concat(m0, own_s, e0, f0, r0, own_b, f0);
                lemma_add_all_concat(m0, own_s + r0, e0 + own_b, f0 + f0, r0, expr_branches(gt, cs@), expr_functions(gt, cs@));
                lemma_add_all_concat(m0, own_s + r0 + r0, e0 + own_b + expr_branches(gt, cs@), f0 + f0 + expr_functions(gt, cs@),
                    stmt_statements(gc, cs@), stmt_branches(gc, cs@), stmt_functions(gc, cs@));
                lemma_add_all_concat(m0, own_s + r0 + r0 + stmt_statements(gc, cs@),
                    e0 + own_b + expr_branches(gt, cs@) + stmt_branches(gc, cs@),
                    f0 + f0 + expr_functions(gt, cs@) + stmt_functions(gc, cs@), sa, ba, fa);
                assert(own_s + r0 + r0 + stmt_statements(gc, cs@) + sa =~= stmt_statements(gs, cs@));
                assert(e0 + own_b + expr_branches(gt, cs@) + stmt_branches(gc, cs@) + ba =~= stmt_branches(gs, cs@));
                assert(f0 + f0 + expr_functions(gt, cs@) + stmt_functions(gc, cs@) + fa =~= stmt_functions(gs, cs@));
            }
            (sid, Stmt::If(r, t2, Box::new(c2), a2))
        },
        other => {
            proof {
                lemma_add_none(m0);
            }
            (None, other)
        },
    }
}

/// The key of the marker that instrumented output carries.
pub const COVERAGE_MAGIC_KEY: &'static str = "_coverageSchema";

/// The value of the marker that instrumented output carries.
pub const COVERAGE_MAGIC_VALUE: &'static str = "1a1c01bbd47fc00a2c39e90264f33305004495a9";

/// The marker of instrumented output, as a key and a value.
pub struct CoverageMagicValue {
    pub key: String,
    pub value: String,
}

/// The marker that the bootstrap code embeds, so that instrumented output can
/// be recognised.
pub fn get_coverage_magic_constants() -> (r: CoverageMagicValue)
    ensures
        r.key@ == COVERAGE_MAGIC_KEY@,
        r.value@ == COVERAGE_MAGIC_VALUE@,
{
    CoverageMagicValue { key: COVERAGE_MAGIC_KEY.to_owned(), value: COVERAGE_MAGIC_VALUE.to_owned() }
}

/// The bootstrap statements put in front of an instrumented file: the
/// accessor's declaration, then a call of it.
pub open spec fn bootstrap(accessor: Seq<char>, path: Seq<char>, s0: Stmt, s1: Stmt) -> bool {
    &&& s0 matches Stmt::CoverageAccessor { accessor: a, path: p, magic_key: k, magic_value: v }
    &&& a@ == accessor && p@ == path && k@ == COVERAGE_MAGIC_KEY@ && v@ == COVERAGE_MAGIC_VALUE@
    &&& s1 matches Stmt::AccessorCall(c)
    &&& c@ == accessor
}

/// The accessor's declaration and the call that makes sure the coverage
/// object exists.
pub fn get_coverage_templates(accessor: &String, path: &String) -> (r: (Stmt, Stmt))
    ensures
        bootstrap(accessor@, path@, r.0, r.1),
{
    let magic = get_coverage_magic_constants();
    let decl = Stmt::CoverageAccessor {
        accessor: accessor.clone(),
        path: path.clone(),
        magic_key: magic.key,
        magic_value: magic.value,
    };
    (decl, Stmt::AccessorCall(accessor.clone()))
}

/// Whether a file already carries instrumentation. No marker is looked for
/// yet: every file counts as not instrumented.
pub fn is_instrumented_already(program: &Program) -> (r: bool)
    ensures
        !r,
{
    false
}

/// The report that a visitor starts from: empty, with the input source map.
pub open spec fn visitor_start(path: Seq<char>, report_logic: bool, map: Option<Seq<char>>) -> CoverageModel {
    CoverageModel { input_source_map: map, ..fresh_model(path, report_logic) }
}

/// The state of one file's instrumentation: its report, its path, and the
/// name of its coverage accessor.
pub struct CoverageVisitor {
    cov: SourceCoverage,
    file_path: String,
    accessor: String,
}

impl CoverageVisitor {
    pub closed spec fn report(&self) -> CoverageModel {
        self.cov@
    }

    pub closed spec fn path(&self) -> Seq<char> {
        self.file_path@
    }

    pub closed spec fn accessor_name(&self) -> Seq<char> {
        self.accessor@
    }

    /// The report is well formed, still open for allocation, and holds no
    /// counter yet.
    pub closed spec fn inv(&self) -> bool {
        &&& self.cov.wf()
        &&& !self.cov.frozen()
        &&& self.cov@.statement_map.len() == 0
        &&& self.cov@.fn_map.len() == 0
        &&& self.cov@.branch_map.len() == 0
    }
}

/// A visitor for the file `filename`, whose coverage object is reached
/// through the function `accessor`; its report is empty and carries
/// `input_source_map`.
pub fn create_coverage_instrumentation_visitor(
    filename: &str,
    accessor: String,
    report_logic: bool,
    input_source_map: Option<String>,
) -> (r: CoverageVisitor)
    ensures
        r.inv(),
        r.report() == visitor_start(
            filename@,
            report_logic,
            match input_source_map {
                Some(m) => Some(m@),
                None => None,
            },
        ),
        r.path() == filename@,
        r.accessor_name() == accessor@,
{
    let mut cov = SourceCoverage::new(filename.to_owned(), report_logic);
    cov.set_input_source_map(input_source_map);
    let r = CoverageVisitor { cov, file_path: filename.to_owned(), accessor };
    proof {
        assert(r.report() =~= visitor_start(
            filename@,
            report_logic,
            match input_source_map {
                Some(m) => Some(m@),
                None => None,
            },
        ));
    }
    r
}

/// A file together with its coverage report.
pub struct Instrumented {
    pub program: Program,
    pub coverage: SourceCoverage,
}

/// Instruments a file. Where a comment at either end of the file asks to
/// ignore it, the file comes back as it was and nothing is registered.
/// Otherwise every statement and expression is instrumented in order, the
/// report is frozen, and the accessor's declaration and a call of it are put
/// in front of the rewritten statements.
pub fn instrument_program(visitor: CoverageVisitor, program: Program, comments: &CommentStore) -> (r:
    Instrumented)
    requires
        visitor.inv(),
    ensures
        r.coverage.wf(),
        file_ignored(comments@, program.range.start, program.range.end) ==> r.program == program
            && r.coverage@ == visitor.report() && !r.coverage.frozen(),
        !file_ignored(comments@, program.range.start, program.range.end) ==> {
            &&& r.program.range == program.range
            &&& r.program.body@.len() == 2 + body_out(program.body@, comments@, program.body@.len()).len()
            &&& bootstrap(visitor.accessor_name(), visitor.path(), r.program.body@[0], r.program.body@[1])
            &&& r.program.body@.subrange(2, r.program.body@.len() as int) == body_out(
                program.body@,
                comments@,
                program.body@.len(),
            )
            &&& r.coverage@ == body_model(visitor.report(), program.body@, comments@)
            &&& r.coverage.frozen()
        },
{
    let ghost body0 = program.body@;
    let ghost cs = comments@;
    let CoverageVisitor { cov, file_path: path, accessor } = visitor;
    let mut cov = cov;
    if should_ignore_file(comments, program.range.start, program.range.end) {
        return Instrumented { program, coverage: cov };
    }
    if is_instrumented_already(&program) {
        return Instrumented { program, coverage: cov };
    }
    let Program { range, body } = program;
    let mut rest = body;
    let n = rest.len();
    let (decl, call) = get_coverage_templates(&accessor, &path);
    let mut out: Vec<Stmt> = Vec::new();
    out.push(decl);
    out.push(call);
    let ghost head = out@;
    let ghost m0 = cov@;
    proof {
        assert(body0.subrange(0, n as int) =~= body0);
        lemma_add_no_nodes(m0);
        assert(m0.statement_map + Seq::<Range>::empty() =~= m0.statement_map);
        assert(m0.s + Seq::new(0, |i: int| 0u32) =~= m0.s);
        assert(head + Seq::<Stmt>::empty() =~= head);
    }
    let mut i: usize = 0;
    while i < n
        invariant
            n == body0.len(),
            i <= n,
            rest@ == body0.subrange(i as int, n as int),
            cov.wf(),
            !cov.frozen(),
            m0 == visitor.report(),
            m0.statement_map.len() == 0,
            m0.fn_map.len() == 0,
            m0.branch_map.len() == 0,
            cov@ == add_all(
                m0,
                body_statements(body0, cs, i as nat),
                body_branches(body0, cs, i as nat),
                body_functions(body0, cs, i as nat),
            ),
            out@ == head + body_out(body0, cs, i as nat),
            cs == comments@,
        decreases n - i,
    {
        let s = rest.remove(0);
        assert(s == body0[i as int]);
        let ghost c0 = cov@;
        proof {
            assert(c0.statement_map.len() == body_statements(body0, cs, i as nat).len());
            assert(c0.branch_map.len() == body_branches(body0, cs, i as nat).len());
            assert(c0.fn_map.len() == body_functions(body0, cs, i as nat).len());
        }
        let ghost out0 = out@;
        let (sid, s2) = instrument_stmt(&mut cov, comments, s);
        match sid {
            Some(k) => out.push(Stmt::StatementHit(k)),
            None => {},
        }
        out.push(s2);
        proof {
            let bb = body_branches(body0, cs, i as nat);
            let bs = body_statements(body0, cs, i as nat);
            let bf = body_functions(body0, cs, i as nat);
            let si = body0[i as int];
            lemma_add_all_concat(m0, bs, bb, bf, stmt_statements(si, cs), stmt_branches(si, cs), stmt_functions(si, cs));
            assert(out@ =~= out0 + stmt_out(si, cs, c0.statement_map.len(), c0.branch_map.len(), c0.fn_map.len()));
            assert(out@ =~= head + body_out(body0, cs, (i + 1) as nat));
            assert(rest@ =~= body0.subrange(i + 1, n as int));
        }
        i = i + 1;
    }
    cov.freeze();
    proof {
        assert(out@.subrange(2, out@.len() as int) =~= body_out(body0, cs, n as nat));
    }
    Instrumented { program: Program { range, body: out }, coverage: cov }
}

/// No comment of `cs` carries a node directive.
pub open spec fn no_hints(cs: Seq<CommentModel>) -> bool {
    forall|i: int| 0 <= i < cs.len() ==> comment_verdict(#[trigger] cs[i].text) == IgnoreVerdict::NoHint
}

/// The number of statements in `s` that can be counted: expression
/// statements, declarations and `if`s, with those in the arms of an `if`.
pub open spec fn stmt_count(s: Stmt) -> nat
    decreases s,
{
    match s {
        Stmt::Expr(..) => 1,
        Stmt::VarDecl(..) => 1,
        Stmt::If(_, _, c, a) => 1 + stmt_count(*c) + match a {
            Some(x) => stmt_count(*x),
            None => 0,
        },
        _ => 0,
    }
}

/// The number of conditionals, short-circuits and `if`s in `s`.
pub open spec fn stmt_branch_count(s: Stmt) -> nat
    decreases s,
{
    match s {
        Stmt::Expr(_, e) => branch_count(e),
        Stmt::VarDecl(_, _, e) => branch_count(e),
        Stmt::If(_, t, c, a) => 1 + branch_count(t) + stmt_branch_count(*c) + match a {
            Some(x) => stmt_branch_count(*x),
            None => 0,
        },
        _ => 0,
    }
}

/// The number of functions in `s`.
pub open spec fn stmt_fn_count(s: Stmt) -> nat
    decreases s,
{
    match s {
        Stmt::Expr(_, e) => fn_count(e),
        Stmt::VarDecl(_, _, e) => fn_count(e),
        Stmt::If(_, t, c, a) => fn_count(t) + stmt_fn_count(*c) + match a {
            Some(x) => stmt_fn_count(*x),
            None => 0,
        },
        _ => 0,
    }
}

/// The number of statements among the first `n` of `body` that can be counted.
pub open spec fn countable_stmts(body: Seq<Stmt>, n: nat) -> nat
    decreases n,
{
    if n == 0 || n > body.len() {
        0
    } else {
        countable_stmts(body, (n - 1) as nat) + stmt_count(body[n - 1])
    }
}

/// The number of conditionals, short-circuits and `if`s in the first `n`
/// statements of `body`.
pub open spec fn body_branch_count(body: Seq<Stmt>, n: nat) -> nat
    decreases n,
{
    if n == 0 || n > body.len() {
        0
    } else {
        body_branch_count(body, (n - 1) as nat) + stmt_branch_count(body[n - 1])
    }
}

/// The number of functions in the first `n` statements of `body`.
pub open spec fn body_fn_count(body: Seq<Stmt>, n: nat) -> nat
    decreases n,
{
    if n == 0 || n > body.len() {
        0
    } else {
        body_fn_count(body, (n - 1) as nat) + stmt_fn_count(body[n - 1])
    }
}

proof fn lemma_no_verdict_from(cs: Seq<CommentModel>, pos: Position, leading: bool, from: int)
    requires
        no_hints(cs),
    ensures
        first_verdict_from(cs, pos, leading, from) == IgnoreVerdict::NoHint,
    decreases cs.len() - from,
{
    if 0 <= from < cs.len() {
        assert(comment_verdict(cs[from].text) == IgnoreVerdict::NoHint);
        lemma_no_verdict_from(cs, pos, leading, from + 1);
    }
}

proof fn lemma_no_verdict(cs: Seq<CommentModel>, r: Range)
    requires
        no_hints(cs),
    ensures
        !skipped(cs, r),
{
    lemma_no_verdict_from(cs, r.end, false, 0);
    lemma_no_verdict_from(cs, r.start, true, 0);
}

proof fn lemma_two_arms_concat(x: Seq<BranchModel>, y: Seq<BranchModel>)
    requires
        forall|k: int| 0 <= k < x.len() ==> (#[trigger] x[k]).locations.len() == 2,
        forall|k: int| 0 <= k < y.len() ==> (#[trigger] y[k]).locations.len() == 2,
    ensures
        forall|k: int| 0 <= k < (x + y).len() ==> (#[trigger] (x + y)[k]).locations.len() == 2,
{
    assert forall|k: int| 0 <= k < (x + y).len() implies (#[trigger] (x + y)[k]).locations.len() == 2 by {
        if k < x.len() {
            assert((x + y)[k] == x[k]);
        } else {
            assert((x + y)[k] == y[k - x.len()]);
        }
    }
}

proof fn lemma_expr_unhinted(e: Expr, cs: Seq<CommentModel>)
    requires
        no_hints(cs),
    ensures
        expr_branches(e, cs).len() == branch_count(e),
        expr_functions(e, cs).len() == fn_count(e),
        forall|k: int| 0 <= k < expr_branches(e, cs).len() ==> (#[trigger] expr_branches(e, cs)[k]).locations.len() == 2,
    decreases e,
{
    match e {
        Expr::Paren(_, x) => lemma_expr_unhinted(*x, cs),
        Expr::BranchHit(_, _, x) => lemma_expr_unhinted(*x, cs),
        Expr::FunctionHit(_, x) => lemma_expr_unhinted(*x, cs),
        Expr::Fn(r, _, x) => {
            lemma_no_verdict(cs, r);
            lemma_expr_unhinted(*x, cs);
        },
        Expr::Cond(r, t, c, a) => {
            lemma_no_verdict(cs, r);
            lemma_expr_unhinted(*t, cs);
            lemma_expr_unhinted(*c, cs);
            lemma_expr_unhinted(*a, cs);
            let own = seq![two_arm_branch(BranchKind::CondExpr, r, *c, *a)];
            lemma_two_arms_concat(own, expr_branches(*t, cs));
            lemma_two_arms_concat(own + expr_branches(*t, cs), expr_branches(*c, cs));
            lemma_two_arms_concat(own + expr_branches(*t, cs) + expr_branches(*c, cs), expr_branches(*a, cs));
            assert(expr_branches(e, cs) =~= own + expr_branches(*t, cs) + expr_branches(*c, cs) + expr_branches(*a, cs));
        },
        Expr::Logical(r, _, x, y) => {
            lemma_no_verdict(cs, r);
            lemma_expr_unhinted(*x, cs);
            lemma_expr_unhinted(*y, cs);
            let own = seq![two_arm_branch(BranchKind::BinaryExpr, r, *x, *y)];
            lemma_two_arms_concat(own, expr_branches(*x, cs));
            lemma_two_arms_concat(own + expr_branches(*x, cs), expr_branches(*y, cs));
            assert(expr_branches(e, cs) =~= own + expr_branches(*x, cs) + expr_branches(*y, cs));
        },
        _ => {},
    }
}

proof fn lemma_stmt_unhinted(s: Stmt, cs: Seq<CommentModel>)
    requires
        no_hints(cs),
    ensures
        stmt_statements(s, cs).len() == stmt_count(s),
        stmt_branches(s, cs).len() == stmt_branch_count(s),
        stmt_functions(s, cs).len() == stmt_fn_count(s),
        forall|k: int| 0 <= k < stmt_branches(s, cs).len() ==> (#[trigger] stmt_branches(s, cs)[k]).locations.len() == 2,
    decreases s,
{
    match s {
        Stmt::Expr(r, e) => {
            lemma_no_verdict(cs, r);
            lemma_expr_unhinted(e, cs);
        },
        Stmt::VarDecl(r, _, e) => {
            lemma_no_verdict(cs, r);
            lemma_expr_unhinted(e, cs);
        },
        Stmt::If(r, t, c, a) => {
            lemma_no_verdict(cs, r);
            lemma_expr_unhinted(t, cs);
            lemma_stmt_unhinted(*c, cs);
            let ba: Seq<BranchModel> = match a {
                Some(x) => {
                    lemma_stmt_unhinted(*x, cs);
                    stmt_branches(*x, cs)
                },
                None => Seq::empty(),
            };
            let own = seq![if_branch(r, *c, a)];
            lemma_two_arms_concat(own, expr_branches(t, cs));
            lemma_two_arms_concat(own + expr_branches(t, cs), stmt_branches(*c, cs));
            lemma_two_arms_concat(own + expr_branches(t, cs) + stmt_branches(*c, cs), ba);
            assert(stmt_branches(s, cs) =~= own + expr_branches(t, cs) + stmt_branches(*c, cs) + ba);
        },
        _ => {},
    }
}

proof fn lemma_body_unhinted(body: Seq<Stmt>, cs: Seq<CommentModel>, n: nat)
    requires
        no_hints(cs),
        n <= body.len(),
    ensures
        body_statements(body, cs, n).len() == countable_stmts(body, n),
        body_branches(body, cs, n).len() == body_branch_count(body, n),
        body_functions(body, cs, n).len() == body_fn_count(body, n),
        forall|k: int| 0 <= k < body_branches(body, cs, n).len() ==> (#[trigger] body_branches(body, cs, n)[k]).locations.len() == 2,
    decreases n,
{
    if n > 0 {
        lemma_body_unhinted(body, cs, (n - 1) as nat);
        lemma_stmt_unhinted(body[n - 1], cs);
        lemma_two_arms_concat(body_branches(body, cs, (n - 1) as nat), stmt_branches(body[n - 1], cs));
    }
}

/// In a file without suppression comments, every expression statement,
/// declaration and `if` gets exactly one statement counter, every function exactly
/// one function counter, and every conditional, short-circuit and `if`
/// exactly one branch counter with a slot for each of its two arms, all at zero. Ids are
/// registry positions, so within each registry they run from 0 up to the
/// number of counters without gaps.
pub proof fn lemma_every_node_counted(
    path: Seq<char>,
    report_logic: bool,
    map: Option<Seq<char>>,
    body: Seq<Stmt>,
    cs: Seq<CommentModel>,
)
    requires
        no_hints(cs),
    ensures
        body_model(visitor_start(path, report_logic, map), body, cs).statement_map.len() == countable_stmts(body, body.len()),
        body_model(visitor_start(path, report_logic, map), body, cs).s == Seq::new(countable_stmts(body, body.len()), |i: int| 0u32),
        body_model(visitor_start(path, report_logic, map), body, cs).fn_map.len() == body_fn_count(body, body.len()),
        body_model(visitor_start(path, report_logic, map), body, cs).f == Seq::new(body_fn_count(body, body.len()), |i: int| 0u32),
        body_model(visitor_start(path, report_logic, map), body, cs).branch_map.len() == body_branch_count(body, body.len()),
        body_model(visitor_start(path, report_logic, map), body, cs).b.len() == body_branch_count(body, body.len()),
        forall|k: int| 0 <= k < body_branch_count(body, body.len()) ==> #[trigger] body_model(visitor_start(path, report_logic, map), body, cs).b[k] == seq![0u32, 0u32],
{
    lemma_body_unhinted(body, cs, body.len());
    let m = body_model(visitor_start(path, report_logic, map), body, cs);
    let bs = body_branches(body, cs, body.len());
    let f = |bm: BranchModel| zero_arms(bm);
    assert(m.s =~= Seq::new(countable_stmts(body, body.len()), |i: int| 0u32));
    assert(m.f =~= Seq::new(body_fn_count(body, body.len()), |i: int| 0u32));
    assert(m.b =~= bs.map_values(f));
    assert forall|k: int| 0 <= k < body_branch_count(body, body.len()) implies #[trigger] m.b[k] == seq![0u32, 0u32] by {
        assert(bs[k].locations.len() == 2);
        assert(m.b[k] =~= seq![0u32, 0u32]);
    }
}

} // verus!
