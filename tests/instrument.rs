use istanbul_oxi::hints::{
    keyword_verdict, lookup_hint_comments, should_ignore_file, verdict_of_text, Comment,
    CommentStore, IgnoreVerdict,
};
use istanbul_oxi::model::{BranchKind, CoverageError, Position, Range, SourceCoverage};
use istanbul_oxi::tree::{Expr, LogicalOp, Program, Stmt};
use istanbul_oxi::visitor::{
    create_coverage_instrumentation_visitor, get_coverage_magic_constants, get_coverage_templates,
    instrument_program,
};

fn pos(line: u32, column: u32) -> Position {
    Position { line, column }
}

fn range(l0: u32, c0: u32, l1: u32, c1: u32) -> Range {
    Range { start: pos(l0, c0), end: pos(l1, c1) }
}

fn ident(r: Range, name: &str) -> Expr {
    Expr::Ident(r, name.to_string())
}

fn store(comments: Vec<Comment>) -> CommentStore {
    CommentStore { comments }
}

fn comment(p: Position, leading: bool, text: &str) -> Comment {
    Comment { pos: p, leading, text: text.to_string() }
}

#[test]
fn ignore_file_leaves_program_unchanged() {
    let file = range(1, 0, 2, 6);
    let body = vec![Stmt::Expr(range(2, 0, 2, 6), ident(range(2, 0, 2, 5), "x"))];
    let program = Program { range: file, body };
    let cs = store(vec![comment(pos(1, 0), true, " istanbul ignore file")]);
    let out = instrument_program(create_coverage_instrumentation_visitor("a.js", "cov_1".to_string(), false, None), program, &cs);
    assert_eq!(out.program.body.len(), 1);
    assert!(matches!(&out.program.body[0], Stmt::Expr(_, Expr::Ident(_, n)) if n == "x"));
    assert!(!out.coverage.is_frozen());
    let rec = out.coverage.into_record();
    assert!(rec.statement_map.is_empty());
    assert!(rec.branch_map.is_empty());
    assert!(rec.s.is_empty());
    assert!(rec.b.is_empty());
}

#[test]
fn ignore_next_on_alternate_keeps_branch_record() {
    // const x = cond ? a /* istanbul ignore next */ : b;
    let stmt_r = range(1, 0, 1, 50);
    let cond_r = range(1, 10, 1, 49);
    let a_r = range(1, 17, 1, 18);
    let b_r = range(1, 48, 1, 49);
    let e = Expr::Cond(
        cond_r,
        Box::new(ident(range(1, 10, 1, 14), "cond")),
        Box::new(ident(a_r, "a")),
        Box::new(ident(b_r, "b")),
    );
    let program = Program { range: range(1, 0, 1, 50), body: vec![Stmt::VarDecl(stmt_r, "x".to_string(), e)] };
    let cs = store(vec![comment(b_r.start, true, " istanbul ignore next ")]);
    let out = instrument_program(create_coverage_instrumentation_visitor("a.js", "cov_1".to_string(), false, None), program, &cs);
    let body = &out.program.body;
    assert_eq!(body.len(), 4);
    assert!(matches!(&body[0], Stmt::CoverageAccessor { .. }));
    assert!(matches!(&body[1], Stmt::AccessorCall(_)));
    assert!(matches!(&body[2], Stmt::StatementHit(0)));
    match &body[3] {
        Stmt::VarDecl(_, _, Expr::Cond(_, _, c, a)) => {
            assert!(matches!(&**c, Expr::BranchHit(0, 0, x) if matches!(&**x, Expr::Ident(_, n) if n == "a")));
            assert!(matches!(&**a, Expr::Ident(_, n) if n == "b"));
        }
        _ => panic!("expected a rewritten declaration"),
    }
    assert!(out.coverage.is_frozen());
    let rec = out.coverage.into_record();
    assert_eq!(rec.branch_map.len(), 1);
    assert_eq!(rec.branch_map[0].kind, BranchKind::CondExpr);
    assert_eq!(rec.branch_map[0].locations, vec![a_r, b_r]);
    assert_eq!(rec.branch_map[0].loc, cond_r);
    assert_eq!(rec.b, vec![vec![0, 0]]);
    assert_eq!(rec.statement_map, vec![stmt_r]);
}

#[test]
fn nested_ternaries_get_two_branches() {
    // a ? (b ? 1 : 2) : 3
    let inner = Expr::Cond(
        range(1, 5, 1, 14),
        Box::new(ident(range(1, 5, 1, 6), "b")),
        Box::new(Expr::Num(range(1, 9, 1, 10), 1)),
        Box::new(Expr::Num(range(1, 13, 1, 14), 2)),
    );
    let outer = Expr::Cond(
        range(1, 0, 1, 19),
        Box::new(ident(range(1, 0, 1, 1), "a")),
        Box::new(Expr::Paren(range(1, 4, 1, 15), Box::new(inner))),
        Box::new(Expr::Num(range(1, 18, 1, 19), 3)),
    );
    let program = Program { range: range(1, 0, 1, 20), body: vec![Stmt::Expr(range(1, 0, 1, 20), outer)] };
    let out = instrument_program(create_coverage_instrumentation_visitor("n.js", "cov_2".to_string(), false, None), program, &store(vec![]));
    match &out.program.body[3] {
        Stmt::Expr(_, Expr::Cond(_, _, c, a)) => {
            let Expr::BranchHit(0, 0, paren) = &**c else { panic!("outer consequent not counted") };
            let Expr::Paren(_, inner) = &**paren else { panic!("parenthesis lost") };
            let Expr::Cond(_, _, ic, ia) = &**inner else { panic!("inner conditional lost") };
            assert!(matches!(&**ic, Expr::BranchHit(1, 0, x) if matches!(&**x, Expr::Num(_, 1))));
            assert!(matches!(&**ia, Expr::BranchHit(1, 1, x) if matches!(&**x, Expr::Num(_, 2))));
            assert!(matches!(&**a, Expr::BranchHit(0, 1, x) if matches!(&**x, Expr::Num(_, 3))));
        }
        _ => panic!("expected a rewritten expression statement"),
    }
    let rec = out.coverage.into_record();
    assert_eq!(rec.b, vec![vec![0, 0], vec![0, 0]]);
    // taking the inner true path counts the outer and the inner true slots
    let mut cov = SourceCoverage::from_record(rec).ok().unwrap();
    cov.hit_branch(0, 0);
    cov.hit_branch(1, 0);
    assert_eq!(cov.into_record().b, vec![vec![1, 0], vec![1, 0]]);
}

#[test]
fn same_line_statements_sum() {
    let mut cov = SourceCoverage::new("l.js".to_string(), false);
    let a = cov.new_statement(range(3, 0, 3, 5));
    let b = cov.new_statement(range(3, 6, 3, 11));
    let c = cov.new_statement(range(4, 0, 4, 5));
    assert_eq!((a, b, c), (0, 1, 2));
    cov.hit_statement(a);
    cov.hit_statement(b);
    assert_eq!(cov.get_line_coverage(), vec![(3, 2), (4, 0)]);
}

#[test]
fn line_coverage_of_empty_report_is_empty() {
    let cov = SourceCoverage::new("e.js".to_string(), false);
    assert!(cov.get_line_coverage().is_empty());
}

#[test]
fn counters_saturate() {
    let mut cov = SourceCoverage::new("s.js".to_string(), false);
    let id = cov.new_function(Some("f".to_string()), range(1, 0, 1, 10), range(1, 11, 3, 1));
    assert_eq!(id, 0);
    cov.hit_function(id);
    cov.hit_function(id);
    let mut rec = cov.into_record();
    assert_eq!(rec.f, vec![2]);
    rec.f[0] = u32::MAX;
    let mut cov = SourceCoverage::from_record(rec).ok().unwrap();
    cov.hit_function(0);
    assert_eq!(cov.into_record().f, vec![u32::MAX]);
}

#[test]
fn freeze_twice_is_freeze_once() {
    let mut cov = SourceCoverage::new("f.js".to_string(), true);
    cov.new_statement(range(1, 0, 1, 1));
    cov.new_branch(BranchKind::If, vec![range(1, 0, 1, 1), range(2, 0, 2, 1)], range(1, 0, 2, 1));
    cov.freeze();
    assert!(cov.is_frozen());
    cov.freeze();
    assert!(cov.is_frozen());
    let rec = cov.into_record();
    assert_eq!(rec.s, vec![0]);
    assert_eq!(rec.b, vec![vec![0, 0]]);
    assert_eq!(rec.b_t, Some(vec![vec![0, 0]]));
}

#[test]
fn export_import_export_round_trip() {
    let mut cov = SourceCoverage::new("r.js".to_string(), false);
    cov.new_statement(range(1, 0, 1, 4));
    cov.new_branch(BranchKind::Switch, vec![range(2, 0, 2, 1), range(3, 0, 3, 1), range(4, 0, 4, 1)], range(2, 0, 4, 1));
    cov.set_input_source_map(Some("{\"version\":3}".to_string()));
    cov.hit_branch(0, 2);
    cov.freeze();
    let rec = cov.into_record();
    let (s, b, map) = (rec.s.clone(), rec.b.clone(), rec.input_source_map.clone());
    let again = SourceCoverage::from_record(rec).ok().unwrap().into_record();
    assert_eq!(again.s, s);
    assert_eq!(again.b, b);
    assert_eq!(again.b, vec![vec![0, 0, 1]]);
    assert_eq!(again.input_source_map, map);
    assert_eq!(again.path, "r.js");
}

#[test]
fn import_rejects_misshapen_records() {
    let mut cov = SourceCoverage::new("x.js".to_string(), true);
    cov.new_statement(range(1, 0, 1, 1));
    cov.new_branch(BranchKind::BinaryExpr, vec![range(1, 0, 1, 1), range(1, 2, 1, 3)], range(1, 0, 1, 3));
    let mut rec = cov.into_record();
    rec.s.push(0);
    assert!(matches!(SourceCoverage::from_record(rec), Err(CoverageError::StatementCounts)));

    let mut cov = SourceCoverage::new("x.js".to_string(), false);
    cov.new_function(None, range(1, 0, 1, 1), range(1, 0, 1, 1));
    let mut rec = cov.into_record();
    rec.f.clear();
    assert!(matches!(SourceCoverage::from_record(rec), Err(CoverageError::FunctionCounts)));

    let mut cov = SourceCoverage::new("x.js".to_string(), true);
    cov.new_branch(BranchKind::DefaultArg, vec![range(1, 0, 1, 1)], range(1, 0, 1, 1));
    let mut rec = cov.into_record();
    rec.b[0].push(0);
    assert!(matches!(SourceCoverage::from_record(rec), Err(CoverageError::BranchCounts)));

    let mut cov = SourceCoverage::new("x.js".to_string(), true);
    cov.new_branch(BranchKind::DefaultArg, vec![range(1, 0, 1, 1)], range(1, 0, 1, 1));
    let mut rec = cov.into_record();
    rec.b_t = Some(vec![]);
    assert!(matches!(SourceCoverage::from_record(rec), Err(CoverageError::BranchTrueCounts)));
}

#[test]
fn hint_keywords() {
    assert_eq!(verdict_of_text(&" istanbul ignore next ".to_string()), IgnoreVerdict::Next);
    assert_eq!(verdict_of_text(&"istanbul ignore if".to_string()), IgnoreVerdict::If);
    assert_eq!(verdict_of_text(&"  istanbul  ignore   else: why".to_string()), IgnoreVerdict::Else);
    assert_eq!(verdict_of_text(&"istanbul ignore nextline".to_string()), IgnoreVerdict::NoHint);
    assert_eq!(verdict_of_text(&"x istanbul ignore next".to_string()), IgnoreVerdict::NoHint);
    assert_eq!(verdict_of_text(&"Istanbul ignore next".to_string()), IgnoreVerdict::NoHint);
    assert_eq!(keyword_verdict(&Some("else".to_string())), IgnoreVerdict::Else);
    assert_eq!(keyword_verdict(&Some("file".to_string())), IgnoreVerdict::NoHint);
    assert_eq!(keyword_verdict(&None), IgnoreVerdict::NoHint);
}

#[test]
fn trailing_hint_wins_over_leading() {
    let lo = pos(1, 0);
    let hi = pos(1, 9);
    let cs = store(vec![
        comment(lo, true, "istanbul ignore if"),
        comment(hi, false, "not a hint"),
        comment(hi, false, "istanbul ignore else"),
        comment(hi, false, "istanbul ignore next"),
    ]);
    assert_eq!(lookup_hint_comments(&cs, lo, hi), IgnoreVerdict::Else);
    let only_leading = store(vec![comment(lo, true, "istanbul ignore if")]);
    assert_eq!(lookup_hint_comments(&only_leading, lo, hi), IgnoreVerdict::If);
    let elsewhere = store(vec![comment(pos(7, 0), true, "istanbul ignore next")]);
    assert_eq!(lookup_hint_comments(&elsewhere, lo, hi), IgnoreVerdict::NoHint);
}

#[test]
fn file_hint_at_either_end() {
    let lo = pos(1, 0);
    let hi = pos(9, 0);
    assert!(should_ignore_file(&store(vec![comment(hi, false, "istanbul ignore file")]), lo, hi));
    assert!(should_ignore_file(&store(vec![comment(lo, false, " istanbul ignore file ")]), lo, hi));
    assert!(!should_ignore_file(&store(vec![comment(pos(5, 0), true, "istanbul ignore file")]), lo, hi));
    assert!(!should_ignore_file(&store(vec![comment(lo, true, "istanbul ignore next")]), lo, hi));
    assert!(!should_ignore_file(&store(vec![comment(lo, true, "istanbul ignore files")]), lo, hi));
}

#[test]
fn statement_with_ignore_next_is_not_counted() {
    let s1 = range(1, 0, 1, 2);
    let s2 = range(2, 0, 2, 2);
    let program = Program {
        range: range(1, 0, 2, 2),
        body: vec![
            Stmt::Expr(s1, ident(range(1, 0, 1, 1), "a")),
            Stmt::Debugger(range(1, 3, 1, 12)),
            Stmt::Expr(s2, ident(range(2, 0, 2, 1), "b")),
        ],
    };
    let cs = store(vec![comment(s1.start, true, "istanbul ignore next")]);
    let out = instrument_program(create_coverage_instrumentation_visitor("i.js", "cov_3".to_string(), false, None), program, &cs);
    let body = &out.program.body;
    assert_eq!(body.len(), 6);
    assert!(matches!(&body[2], Stmt::Expr(_, _)));
    assert!(matches!(&body[3], Stmt::Debugger(_)));
    assert!(matches!(&body[4], Stmt::StatementHit(0)));
    assert!(matches!(&body[5], Stmt::Expr(_, _)));
    assert_eq!(out.coverage.into_record().statement_map, vec![s2]);
}

#[test]
fn bootstrap_templates() {
    let magic = get_coverage_magic_constants();
    assert_eq!(magic.key, "_coverageSchema");
    assert_eq!(magic.value, "1a1c01bbd47fc00a2c39e90264f33305004495a9");
    let (decl, call) = get_coverage_templates(&"cov_9".to_string(), &"m.js".to_string());
    match decl {
        Stmt::CoverageAccessor { accessor, path, magic_key, magic_value } => {
            assert_eq!(accessor, "cov_9");
            assert_eq!(path, "m.js");
            assert_eq!(magic_key, magic.key);
            assert_eq!(magic_value, magic.value);
        }
        _ => panic!("expected the accessor declaration"),
    }
    assert!(matches!(call, Stmt::AccessorCall(a) if a == "cov_9"));
}

#[test]
fn functions_and_short_circuits_are_counted() {
    // const f = function g() { return a && b; };  written with an expression body
    let body_r = range(1, 24, 1, 30);
    let fn_r = range(1, 10, 1, 31);
    let logical = Expr::Logical(
        body_r,
        LogicalOp::And,
        Box::new(ident(range(1, 24, 1, 25), "a")),
        Box::new(ident(range(1, 29, 1, 30), "b")),
    );
    let f = Expr::Fn(fn_r, Some("g".to_string()), Box::new(logical));
    let stmt_r = range(1, 0, 1, 32);
    let program = Program { range: stmt_r, body: vec![Stmt::VarDecl(stmt_r, "f".to_string(), f)] };
    let out = instrument_program(create_coverage_instrumentation_visitor("g.js", "cov_4".to_string(), true, None), program, &store(vec![]));
    match &out.program.body[3] {
        Stmt::VarDecl(_, _, Expr::Fn(_, Some(name), body)) => {
            assert_eq!(name, "g");
            let Expr::FunctionHit(0, inner) = &**body else { panic!("function entry not counted") };
            let Expr::Logical(_, LogicalOp::And, x, y) = &**inner else { panic!("short-circuit lost") };
            assert!(matches!(&**x, Expr::BranchHit(0, 0, _)));
            assert!(matches!(&**y, Expr::BranchHit(0, 1, _)));
        }
        _ => panic!("expected a rewritten declaration"),
    }
    let rec = out.coverage.into_record();
    assert_eq!(rec.fn_map.len(), 1);
    assert_eq!(rec.fn_map[0].name.as_deref(), Some("g"));
    assert_eq!(rec.fn_map[0].decl, fn_r);
    assert_eq!(rec.fn_map[0].loc, body_r);
    assert_eq!(rec.f, vec![0]);
    assert_eq!(rec.branch_map[0].kind, BranchKind::BinaryExpr);
    assert_eq!(rec.b, vec![vec![0, 0]]);
    assert_eq!(rec.b_t, Some(vec![vec![0, 0]]));
}

#[test]
fn ignore_next_on_function_skips_only_its_counter() {
    let fn_r = range(2, 0, 2, 20);
    let cond = Expr::Cond(
        range(2, 10, 2, 19),
        Box::new(ident(range(2, 10, 2, 11), "p")),
        Box::new(Expr::Num(range(2, 14, 2, 15), 1)),
        Box::new(Expr::Num(range(2, 18, 2, 19), 2)),
    );
    let f = Expr::Fn(fn_r, None, Box::new(cond));
    let program = Program { range: range(1, 0, 3, 0), body: vec![Stmt::Expr(fn_r, f)] };
    let cs = store(vec![comment(fn_r.end, false, "istanbul ignore next")]);
    let out = instrument_program(create_coverage_instrumentation_visitor("h.js", "cov_5".to_string(), false, None), program, &cs);
    assert_eq!(out.program.body.len(), 3);
    assert!(matches!(&out.program.body[2], Stmt::Expr(_, Expr::Fn(_, None, b)) if matches!(&**b, Expr::Cond(..))));
    let rec = out.coverage.into_record();
    assert!(rec.fn_map.is_empty());
    assert!(rec.statement_map.is_empty());
    assert_eq!(rec.b, vec![vec![0, 0]]);
}

#[test]
fn visitor_carries_input_source_map() {
    let v = create_coverage_instrumentation_visitor("m.js", "cov_6".to_string(), false, Some("{}".to_string()));
    let program = Program { range: range(1, 0, 1, 1), body: vec![] };
    let out = instrument_program(v, program, &store(vec![]));
    assert_eq!(out.program.body.len(), 2);
    assert!(matches!(&out.program.body[0], Stmt::CoverageAccessor { accessor, path, .. } if accessor == "cov_6" && path == "m.js"));
    assert!(out.coverage.is_frozen());
    let rec = out.coverage.into_record();
    assert_eq!(rec.input_source_map.as_deref(), Some("{}"));
    assert_eq!(rec.path, "m.js");
}

fn if_program(with_else: bool) -> (Program, Range, Range, Range) {
    // if (p) a; else b;
    let if_r = range(1, 0, 1, 17);
    let cons_r = range(1, 7, 1, 9);
    let alt_r = range(1, 15, 1, 17);
    let alt = if with_else {
        Some(Box::new(Stmt::Expr(alt_r, ident(range(1, 15, 1, 16), "b"))))
    } else {
        None
    };
    let stmt = Stmt::If(
        if_r,
        ident(range(1, 4, 1, 5), "p"),
        Box::new(Stmt::Expr(cons_r, ident(range(1, 7, 1, 8), "a"))),
        alt,
    );
    (Program { range: if_r, body: vec![stmt] }, if_r, cons_r, alt_r)
}

#[test]
fn if_else_counts_both_arms() {
    let (program, if_r, cons_r, alt_r) = if_program(true);
    let out = instrument_program(create_coverage_instrumentation_visitor("if.js", "cov_7".to_string(), false, None), program, &store(vec![]));
    assert!(matches!(&out.program.body[2], Stmt::StatementHit(0)));
    match &out.program.body[3] {
        Stmt::If(_, _, c, Some(a)) => {
            assert!(matches!(&**c, Stmt::CountedArm(0, 0, x) if matches!(&**x, Stmt::Counted(1, _))));
            assert!(matches!(&**a, Stmt::CountedArm(0, 1, x) if matches!(&**x, Stmt::Counted(2, _))));
        }
        _ => panic!("expected a rewritten if"),
    }
    let rec = out.coverage.into_record();
    assert_eq!(rec.statement_map, vec![if_r, cons_r, alt_r]);
    assert_eq!(rec.branch_map[0].kind, BranchKind::If);
    assert_eq!(rec.branch_map[0].locations, vec![cons_r, alt_r]);
    assert_eq!(rec.b, vec![vec![0, 0]]);
}

#[test]
fn lone_if_gets_a_counting_else() {
    let (program, if_r, cons_r, _) = if_program(false);
    let out = instrument_program(create_coverage_instrumentation_visitor("if.js", "cov_8".to_string(), false, None), program, &store(vec![]));
    match &out.program.body[3] {
        Stmt::If(_, _, _, Some(a)) => assert!(matches!(&**a, Stmt::BranchArmHit(0, 1))),
        _ => panic!("expected an else that counts"),
    }
    let rec = out.coverage.into_record();
    assert_eq!(rec.branch_map[0].locations, vec![cons_r, if_r]);
}

#[test]
fn ignore_if_and_ignore_else_skip_one_arm() {
    let (program, if_r, _, _) = if_program(true);
    let cs = store(vec![comment(if_r.start, true, "istanbul ignore if")]);
    let out = instrument_program(create_coverage_instrumentation_visitor("if.js", "cov_9".to_string(), false, None), program, &cs);
    match &out.program.body[3] {
        Stmt::If(_, _, c, Some(a)) => {
            assert!(matches!(&**c, Stmt::Counted(1, _)));
            assert!(matches!(&**a, Stmt::CountedArm(0, 1, _)));
        }
        _ => panic!("expected a rewritten if"),
    }
    let (program, if_r, _, _) = if_program(true);
    let cs = store(vec![comment(if_r.start, true, "istanbul ignore else")]);
    let out = instrument_program(create_coverage_instrumentation_visitor("if.js", "cov_9".to_string(), false, None), program, &cs);
    match &out.program.body[3] {
        Stmt::If(_, _, c, Some(a)) => {
            assert!(matches!(&**c, Stmt::CountedArm(0, 0, _)));
            assert!(matches!(&**a, Stmt::Counted(2, _)));
        }
        _ => panic!("expected a rewritten if"),
    }
    assert_eq!(out.coverage.into_record().b, vec![vec![0, 0]]);
}
