use vstd::prelude::*;

verus! {

/// A point in the source text: a 1-based line and a 0-based column.
#[derive(Clone, Copy, Debug, PartialEq, Eq, Structural)]
pub struct Position {
    pub line: u32,
    pub column: u32,
}

/// A source range, from `start` to `end`.
#[derive(Clone, Copy, Debug, PartialEq, Eq, Structural)]
pub struct Range {
    pub start: Position,
    pub end: Position,
}

/// The kind of a conditional construct whose arms are counted.
#[derive(Clone, Copy, Debug, PartialEq, Eq, Structural)]
pub enum BranchKind {
    /// `&&`, `||` and `??` short-circuits.
    BinaryExpr,
    /// `cond ? a : b`.
    CondExpr,
    /// `if` / `else`.
    If,
    /// The cases of a `switch`.
    Switch,
    /// A parameter's default value.
    DefaultArg,
}

/// A function registry entry.
pub struct FunctionMeta {
    pub name: Option<String>,
    pub decl: Range,
    pub loc: Range,
}

/// A branch registry entry: one range per arm, and the construct's range.
pub struct BranchMeta {
    pub kind: BranchKind,
    pub locations: Vec<Range>,
    pub loc: Range,
}

pub struct FunctionModel {
    pub name: Option<Seq<char>>,
    pub decl: Range,
    pub loc: Range,
}

#[verifier::ext_equal]
pub struct BranchModel {
    pub kind: BranchKind,
    pub locations: Seq<Range>,
    pub loc: Range,
}

impl View for FunctionMeta {
    type V = FunctionModel;

    open spec fn view(&self) -> FunctionModel {
        FunctionModel {
            name: match self.name {
                Some(n) => Some(n@),
                None => None,
            },
            decl: self.decl,
            loc: self.loc,
        }
    }
}

impl View for BranchMeta {
    type V = BranchModel;

    open spec fn view(&self) -> BranchModel {
        BranchModel { kind: self.kind, locations: self.locations@, loc: self.loc }
    }
}

/// The interchange form of a file's coverage: the registries and hit-count
/// tables, indexed by id, with the optional branch-true table and the input
/// source map carried verbatim.
#[verifier::ext_equal]
pub struct CoverageModel {
    pub path: Seq<char>,
    pub statement_map: Seq<Range>,
    pub fn_map: Seq<FunctionModel>,
    pub branch_map: Seq<BranchModel>,
    pub s: Seq<u32>,
    pub f: Seq<u32>,
    pub b: Seq<Seq<u32>>,
    pub b_t: Option<Seq<Seq<u32>>>,
    pub input_source_map: Option<Seq<char>>,
}

/// An exported coverage report: the record handed to the serialisation
/// boundary, and taken back from it.
pub struct CoverageRecord {
    pub path: String,
    pub statement_map: Vec<Range>,
    pub fn_map: Vec<FunctionMeta>,
    pub branch_map: Vec<BranchMeta>,
    pub s: Vec<u32>,
    pub f: Vec<u32>,
    pub b: Vec<Vec<u32>>,
    pub b_t: Option<Vec<Vec<u32>>>,
    pub input_source_map: Option<String>,
}

pub open spec fn counts_view(t: Seq<Vec<u32>>) -> Seq<Seq<u32>> {
    t.map_values(|v: Vec<u32>| v@)
}

impl View for CoverageRecord {
    type V = CoverageModel;

    open spec fn view(&self) -> CoverageModel {
        CoverageModel {
            path: self.path@,
            statement_map: self.statement_map@,
            fn_map: self.fn_map@.map_values(|m: FunctionMeta| m@),
            branch_map: self.branch_map@.map_values(|m: BranchMeta| m@),
            s: self.s@,
            f: self.f@,
            b: counts_view(self.b@),
            b_t: match self.b_t {
                Some(t) => Some(counts_view(t@)),
                None => None,
            },
            input_source_map: match self.input_source_map {
                Some(m) => Some(m@),
                None => None,
            },
        }
    }
}

/// Why a record cannot be taken back as a coverage report.
#[derive(Clone, Copy, Debug, PartialEq, Eq, Structural)]
pub enum CoverageError {
    /// `s` does not hold one count per statement.
    StatementCounts,
    /// `f` does not hold one count per function.
    FunctionCounts,
    /// `b` does not hold one count list per branch, one count per arm.
    BranchCounts,
    /// `bT` is present and is not shaped like `b`.
    BranchTrueCounts,
}

pub open spec fn counts_shaped(b: Seq<Seq<u32>>, branch_map: Seq<BranchModel>) -> bool {
    &&& b.len() == branch_map.len()
    &&& forall|i: int| 0 <= i < b.len() ==> #[trigger] b[i].len() == branch_map[i].locations.len()
}

pub open spec fn same_shape(t: Seq<Seq<u32>>, b: Seq<Seq<u32>>) -> bool {
    &&& t.len() == b.len()
    &&& forall|i: int| 0 <= i < t.len() ==> #[trigger] t[i].len() == b[i].len()
}

/// The first shape violation of a record, checked in the order of the
/// tables, or `None` when every hit-count table matches its registry.
pub open spec fn import_error(m: CoverageModel) -> Option<CoverageError> {
    if m.s.len() != m.statement_map.len() {
        Some(CoverageError::StatementCounts)
    } else if m.f.len() != m.fn_map.len() {
        Some(CoverageError::FunctionCounts)
    } else if !counts_shaped(m.b, m.branch_map) {
        Some(CoverageError::BranchCounts)
    } else if m.b_t is Some && !same_shape(m.b_t->Some_0, m.b) {
        Some(CoverageError::BranchTrueCounts)
    } else {
        None
    }
}

/// Every id of a hit-count table has its registry entry, and the reverse.
pub open spec fn well_shaped(m: CoverageModel) -> bool {
    import_error(m) is None
}

/// The report that importing `m` yields, if it can be imported.
pub open spec fn import_model(m: CoverageModel) -> Option<CoverageModel> {
    if well_shaped(m) {
        Some(m)
    } else {
        None
    }
}

/// The sum of the counts of the first `n` statements that start on `line`.
pub open spec fn line_hits(m: CoverageModel, line: u32, n: nat) -> int
    decreases n,
{
    if n == 0 {
        0
    } else {
        line_hits(m, line, (n - 1) as nat) + if m.statement_map[n - 1].start.line == line {
            m.s[n - 1] as int
        } else {
            0
        }
    }
}

/// Some statement starts on `line`.
pub open spec fn line_touched(m: CoverageModel, line: u32) -> bool {
    exists|j: int| 0 <= j < m.statement_map.len() && #[trigger] m.statement_map[j].start.line == line
}

/// Some statement among the first `i` starts on `line`.
pub open spec fn touched_before(m: CoverageModel, line: u32, i: int) -> bool {
    exists|j: int| 0 <= j < i && #[trigger] m.statement_map[j].start.line == line
}

/// `line` has an entry in a line-coverage table.
pub open spec fn listed(r: Seq<(u32, u64)>, line: u32) -> bool {
    exists|k: int| 0 <= k < r.len() && #[trigger] r[k].0 == line
}

proof fn lemma_line_hits_bound(m: CoverageModel, line: u32, n: nat)
    requires
        n <= m.s.len(),
    ensures
        0 <= line_hits(m, line, n) <= n * 0xFFFF_FFFF,
    decreases n,
{
    if n > 0 {
        lemma_line_hits_bound(m, line, (n - 1) as nat);
    }
}

/// The report of a file before any counter is registered.
pub open spec fn fresh_model(path: Seq<char>, report_logic: bool) -> CoverageModel {
    CoverageModel {
        path,
        statement_map: Seq::empty(),
        fn_map: Seq::empty(),
        branch_map: Seq::empty(),
        s: Seq::empty(),
        f: Seq::empty(),
        b: Seq::empty(),
        b_t: if report_logic {
            Some(Seq::empty())
        } else {
            None
        },
        input_source_map: None,
    }
}

/// A file's coverage accumulator. Ids are positions in the registries, so
/// within each registry they run from 0 without gaps.
pub struct SourceCoverage {
    data: CoverageRecord,
    frozen: bool,
}

impl View for SourceCoverage {
    type V = CoverageModel;

    closed spec fn view(&self) -> CoverageModel {
        self.data@
    }
}

impl SourceCoverage {
    pub closed spec fn wf(&self) -> bool {
        well_shaped(self@)
    }

    pub closed spec fn frozen(&self) -> bool {
        self.frozen
    }

    /// An empty report for `path`, not frozen. With `report_logic` the
    /// branch-true table is kept.
    pub fn new(path: String, report_logic: bool) -> (r: SourceCoverage)
        ensures
            r.wf(),
            !r.frozen(),
            r@ == fresh_model(path@, report_logic),
    {
        let b_t = if report_logic {
            Some(Vec::new())
        } else {
            None
        };
        let r = SourceCoverage {
            data: CoverageRecord {
                path,
                statement_map: Vec::new(),
                fn_map: Vec::new(),
                branch_map: Vec::new(),
                s: Vec::new(),
                f: Vec::new(),
                b: Vec::new(),
                b_t,
                input_source_map: None,
            },
            frozen: false,
        };
        proof {
            assert(r@ =~= fresh_model(path@, report_logic));
        }
        r
    }

    pub fn is_frozen(&self) -> (r: bool)
        ensures
            r == self.frozen(),
    {
        self.frozen
    }

    /// `after` is `before` frozen: the same report, with allocation closed.
    pub open spec fn froze(before: SourceCoverage, after: SourceCoverage) -> bool {
        &&& after@ == before@
        &&& after.frozen()
        &&& after.wf() == before.wf()
    }

    /// Forbids further id allocation. Calling it again changes nothing.
    pub fn freeze(&mut self)
        ensures
            SourceCoverage::froze(*old(self), *final(self)),
    {
        self.frozen = true;
    }

    /// Registers a statement and its zero count; returns its id.
    pub fn new_statement(&mut self, range: Range) -> (id: usize)
        requires
            old(self).wf(),
            !old(self).frozen(),
        ensures
            final(self).wf(),
            !final(self).frozen(),
            id == old(self)@.statement_map.len(),
            final(self)@ == (CoverageModel {
                statement_map: old(self)@.statement_map.push(range),
                s: old(self)@.s.push(0),
                ..old(self)@
            }),
    {
        let id = self.data.statement_map.len();
        self.data.statement_map.push(range);
        self.data.s.push(0);
        proof {
            assert(self@ =~= (CoverageModel {
                statement_map: old(self)@.statement_map.push(range),
                s: old(self)@.s.push(0),
                ..old(self)@
            }));
        }
        id
    }

    /// Registers a function and its zero count; returns its id.
    pub fn new_function(&mut self, name: Option<String>, decl: Range, loc: Range) -> (id: usize)
        requires
            old(self).wf(),
            !old(self).frozen(),
        ensures
            final(self).wf(),
            !final(self).frozen(),
            id == old(self)@.fn_map.len(),
            final(self)@ == (CoverageModel {
                fn_map: old(self)@.fn_map.push(
                    FunctionMeta { name, decl, loc }@,
                ),
                f: old(self)@.f.push(0),
                ..old(self)@
            }),
    {
        let id = self.data.fn_map.len();
        let meta = FunctionMeta { name, decl, loc };
        let ghost mv = meta@;
        self.data.fn_map.push(meta);
        self.data.f.push(0);
        proof {
            assert(self.data.fn_map@.map_values(|m: FunctionMeta| m@) =~= old(
                self,
            ).data.fn_map@.map_values(|m: FunctionMeta| m@).push(mv));
            assert(self@ =~= (CoverageModel {
                fn_map: old(self)@.fn_map.push(mv),
                f: old(self)@.f.push(0),
                ..old(self)@
            }));
        }
        id
    }

    /// Registers a branch with one arm per range of `locations`, each arm's
    /// count at zero; returns its id.
    pub fn new_branch(&mut self, kind: BranchKind, locations: Vec<Range>, loc: Range) -> (id:
        usize)
        requires
            old(self).wf(),
            !old(self).frozen(),
        ensures
            final(self).wf(),
            !final(self).frozen(),
            id == old(self)@.branch_map.len(),
            final(self)@ == (CoverageModel {
                branch_map: old(self)@.branch_map.push(
                    BranchModel { kind, locations: locations@, loc },
                ),
                b: old(self)@.b.push(Seq::new(locations@.len(), |i: int| 0u32)),
                b_t: match old(self)@.b_t {
                    Some(t) => Some(t.push(Seq::new(locations@.len(), |i: int| 0u32))),
                    None => None,
                },
                ..old(self)@
            }),
    {
        let id = self.data.branch_map.len();
        let n = locations.len();
        let zeros = zero_counts(n);
        let ghost lv = locations@;
        self.data.branch_map.push(BranchMeta { kind, locations, loc });
        self.data.b.push(zeros);
        let ghost zs = Seq::new(n as nat, |i: int| 0u32);
        match &mut self.data.b_t {
            Some(t) => {
                t.push(zero_counts(n));
            },
            None => {},
        }
        proof {
            let bm = BranchModel { kind, locations: lv, loc };
            assert(self.data.branch_map@.map_values(|m: BranchMeta| m@) =~= old(
                self,
            ).data.branch_map@.map_values(|m: BranchMeta| m@).push(bm));
            assert(counts_view(self.data.b@) =~= counts_view(old(self).data.b@).push(zs));
            if self.data.b_t is Some {
                let t = self.data.b_t->Some_0;
                assert(counts_view(t@) =~= counts_view(old(self).data.b_t->Some_0@).push(zs));
            }
            assert(self@ =~= (CoverageModel {
                branch_map: old(self)@.branch_map.push(bm),
                b: old(self)@.b.push(zs),
                b_t: match old(self)@.b_t {
                    Some(t) => Some(t.push(zs)),
                    None => None,
                },
                ..old(self)@
            }));
            let m = self@;
            assert forall|i: int| 0 <= i < m.b.len() implies #[trigger] m.b[i].len()
                == m.branch_map[i].locations.len() by {
                if i < old(self)@.b.len() {
                    assert(m.b[i] == old(self)@.b[i]);
                }
            }
            if m.b_t is Some {
                let t = m.b_t->Some_0;
                assert forall|i: int| 0 <= i < t.len() implies #[trigger] t[i].len()
                    == m.b[i].len() by {
                    if i < old(self)@.b.len() {
                        assert(t[i] == old(self)@.b_t->Some_0[i]);
                    }
                }
            }
        }
        id
    }

    /// Adds one hit to statement `id`; a count at the largest `u32` stays there.
    pub fn hit_statement(&mut self, id: usize)
        requires
            old(self).wf(),
            id < old(self)@.s.len(),
        ensures
            final(self).wf(),
            final(self).frozen() == old(self).frozen(),
            final(self)@ == (CoverageModel {
                s: old(self)@.s.update(id as int, bump(old(self)@.s[id as int])),
                ..old(self)@
            }),
    {
        let c = self.data.s[id];
        self.data.s.set(id, bump_count(c));
        proof {
            assert(self@ =~= (CoverageModel {
                s: old(self)@.s.update(id as int, bump(old(self)@.s[id as int])),
                ..old(self)@
            }));
        }
    }

    /// Adds one hit to function `id`; a count at the largest `u32` stays there.
    pub fn hit_function(&mut self, id: usize)
        requires
            old(self).wf(),
            id < old(self)@.f.len(),
        ensures
            final(self).wf(),
            final(self).frozen() == old(self).frozen(),
            final(self)@ == (CoverageModel {
                f: old(self)@.f.update(id as int, bump(old(self)@.f[id as int])),
                ..old(self)@
            }),
    {
        let c = self.data.f[id];
        self.data.f.set(id, bump_count(c));
        proof {
            assert(self@ =~= (CoverageModel {
                f: old(self)@.f.update(id as int, bump(old(self)@.f[id as int])),
                ..old(self)@
            }));
        }
    }

    /// Adds one hit to arm `arm` of branch `id`; a count at the largest `u32`
    /// stays there.
    pub fn hit_branch(&mut self, id: usize, arm: usize)
        requires
            old(self).wf(),
            id < old(self)@.b.len(),
            arm < old(self)@.b[id as int].len(),
        ensures
            final(self).wf(),
            final(self).frozen() == old(self).frozen(),
            final(self)@ == (CoverageModel {
                b: old(self)@.b.update(
                    id as int,
                    old(self)@.b[id as int].update(arm as int, bump(old(self)@.b[id as int][arm as int])),
                ),
                ..old(self)@
            }),
    {
        let arms = bumped_at(&self.data.b[id], arm);
        self.data.b.set(id, arms);
        proof {
            let nb = old(self)@.b.update(
                id as int,
                old(self)@.b[id as int].update(arm as int, bump(old(self)@.b[id as int][arm as int])),
            );
            assert(counts_view(self.data.b@) =~= nb);
            assert(self@ =~= (CoverageModel { b: nb, ..old(self)@ }));
            let m = self@;
            assert forall|i: int| 0 <= i < m.b.len() implies #[trigger] m.b[i].len()
                == m.branch_map[i].locations.len() by {
                assert(old(self)@.b[i].len() == old(self)@.branch_map[i].locations.len());
            }
            if m.b_t is Some {
                let t = m.b_t->Some_0;
                assert forall|i: int| 0 <= i < t.len() implies #[trigger] t[i].len()
                    == m.b[i].len() by {
                    assert(t[i].len() == old(self)@.b[i].len());
                }
            }
        }
    }

    /// The report as a record, for reading.
    pub fn as_record(&self) -> (r: &CoverageRecord)
        ensures
            r@ == self@,
    {
        &self.data
    }

    /// Hands the report to the export boundary.
    pub fn into_record(self) -> (r: CoverageRecord)
        ensures
            r@ == self@,
    {
        self.data
    }

    /// Takes an exported record back as a frozen report, or names the first
    /// table that does not match its registry.
    pub fn from_record(record: CoverageRecord) -> (r: Result<SourceCoverage, CoverageError>)
        ensures
            match r {
                Ok(c) => import_model(record@) == Some(c@) && c.wf() && c.frozen(),
                Err(e) => import_error(record@) == Some(e),
            },
    {
        if record.s.len() != record.statement_map.len() {
            return Err(CoverageError::StatementCounts);
        }
        if record.f.len() != record.fn_map.len() {
            return Err(CoverageError::FunctionCounts);
        }
        if record.b.len() != record.branch_map.len() {
            return Err(CoverageError::BranchCounts);
        }
        let mut i: usize = 0;
        while i < record.b.len()
            invariant
                i <= record.b@.len(),
                record.s@.len() == record.statement_map@.len(),
                record.f@.len() == record.fn_map@.len(),
                record.b@.len() == record.branch_map@.len(),
                forall|k: int| 0 <= k < i ==> #[trigger] record@.b[k].len()
                    == record@.branch_map[k].locations.len(),
            decreases record.b@.len() - i,
        {
            if record.b[i].len() != record.branch_map[i].locations.len() {
                assert(record@.b[i as int] == record.b@[i as int]@);
                assert(record@.b[i as int].len() != record@.branch_map[i as int].locations.len());
                assert(!counts_shaped(record@.b, record@.branch_map));
                return Err(CoverageError::BranchCounts);
            }
            i = i + 1;
        }
        assert(counts_shaped(record@.b, record@.branch_map));
        assert(!(import_error(record@) matches Some(_)) || import_error(record@) == Some(
            CoverageError::BranchTrueCounts,
        ));
        match &record.b_t {
            Some(t) => {
                if t.len() != record.b.len() {
                    return Err(CoverageError::BranchTrueCounts);
                }
                let mut j: usize = 0;
                while j < t.len()
                    invariant
                        j <= t@.len(),
                        t@.len() == record.b@.len(),
                        !(import_error(record@) matches Some(_)) || import_error(record@) == Some(
                            CoverageError::BranchTrueCounts,
                        ),
                        record.b_t == Some(*t),
                        forall|k: int| 0 <= k < j ==> #[trigger] counts_view(t@)[k].len()
                            == record@.b[k].len(),
                    decreases t@.len() - j,
                {
                    if t[j].len() != record.b[j].len() {
                        assert(counts_view(t@)[j as int] == t@[j as int]@);
                        assert(record@.b[j as int] == record.b@[j as int]@);
                        assert(counts_view(t@)[j as int].len() != record@.b[j as int].len());
                        assert(!same_shape(record@.b_t->Some_0, record@.b));
                        return Err(CoverageError::BranchTrueCounts);
                    }
                    j = j + 1;
                }
            },
            None => {},
        }
        Ok(SourceCoverage { data: record, frozen: true })
    }

    /// The line coverage: one entry per line on which some statement starts,
    /// holding the sum of the counts of the statements that start there.
    pub fn get_line_coverage(&self) -> (r: Vec<(u32, u64)>)
        requires
            self.wf(),
            self@.s.len() <= 0xFFFF_FFFF,
        ensures
            forall|k: int| 0 <= k < r@.len() ==> line_touched(self@, #[trigger] r@[k].0),
            forall|k: int|
                0 <= k < r@.len() ==> #[trigger] r@[k].1 == line_hits(self@, r@[k].0, self@.s.len()),
            forall|line: u32| line_touched(self@, line) ==> #[trigger] listed(r@, line),
            forall|k: int, l: int| 0 <= k < l < r@.len() ==> r@[k].0 != r@[l].0,
    {
        let ghost m = self@;
        let n = self.data.s.len();
        let mut r: Vec<(u32, u64)> = Vec::new();
        let mut i: usize = 0;
        while i < n
            invariant
                m == self@,
                n == m.s.len(),
                n == m.statement_map.len(),
                n <= 0xFFFF_FFFF,
                i <= n,
                forall|k: int| 0 <= k < r@.len() ==> touched_before(m, #[trigger] r@[k].0, i as int),
                forall|k: int|
                    0 <= k < r@.len() ==> #[trigger] r@[k].1 == line_hits(m, r@[k].0, i as nat),
                forall|j: int| 0 <= j < i ==> listed(r@, #[trigger] m.statement_map[j].start.line),
                forall|line: u32| !listed(r@, line) ==> #[trigger] line_hits(m, line, i as nat) == 0,
                forall|k: int, l: int| 0 <= k < l < r@.len() ==> r@[k].0 != r@[l].0,
            decreases n - i,
        {
            let line = self.data.statement_map[i].start.line;
            let c = self.data.s[i];
            proof {
                lemma_line_hits_bound(m, line, (i + 1) as nat);
                assert(line_hits(m, line, (i + 1) as nat) <= 0xFFFF_FFFF * 0xFFFF_FFFF) by (nonlinear_arith)
                    requires
                        line_hits(m, line, (i + 1) as nat) <= (i + 1) * 0xFFFF_FFFF,
                        i + 1 <= 0xFFFF_FFFF,
                ;
            }
            let mut k: usize = 0;
            let mut found = false;
            while k < r.len()
                invariant
                    k <= r@.len(),
                    !found ==> forall|q: int| 0 <= q < k ==> #[trigger] r@[q].0 != line,
                    found ==> k < r@.len() && r@[k as int].0 == line,
                ensures
                    !found ==> forall|q: int| 0 <= q < r@.len() ==> #[trigger] r@[q].0 != line,
                    found ==> k < r@.len() && r@[k as int].0 == line,
                decreases r@.len() - k,
            {
                if r[k].0 == line {
                    found = true;
                    break;
                }
                k = k + 1;
            }
            let ghost r0 = r@;
            if found {
                let (l, total) = r[k];
                assert(total + c == line_hits(m, line, (i + 1) as nat));
                r.set(k, (l, total + c as u64));
            } else {
                assert(!listed(r0, line));
                assert(line_hits(m, line, i as nat) == 0);
                r.push((line, c as u64));
            }
            proof {
                assert forall|k2: int| 0 <= k2 < r@.len() implies touched_before(
                    m,
                    #[trigger] r@[k2].0,
                    i + 1,
                ) by {
                    if k2 < r0.len() && r@[k2].0 == r0[k2].0 {
                        assert(touched_before(m, r0[k2].0, i as int));
                    } else {
                        assert(m.statement_map[i as int].start.line == r@[k2].0);
                    }
                }
                assert forall|k2: int| 0 <= k2 < r@.len() implies #[trigger] r@[k2].1 == line_hits(
                    m,
                    r@[k2].0,
                    (i + 1) as nat,
                ) by {
                    if found && k2 == k {
                    } else if k2 < r0.len() {
                        assert(r@[k2] == r0[k2]);
                        if found {
                            assert(r0[k2].0 != r0[k as int].0);
                        } else {
                            assert(r0[k2].0 != line);
                        }
                    } else {
                        assert(r@[k2] == (line, c as u64));
                    }
                }
                assert forall|j: int| 0 <= j < i + 1 implies listed(
                    r@,
                    #[trigger] m.statement_map[j].start.line,
                ) by {
                    if j < i {
                        let l0 = m.statement_map[j].start.line;
                        assert(listed(r0, l0));
                        let k0 = choose|k2: int| 0 <= k2 < r0.len() && #[trigger] r0[k2].0 == l0;
                        assert(r@[k0].0 == l0);
                    } else if found {
                        assert(r@[k as int].0 == line);
                    } else {
                        assert(r@[r0.len() as int].0 == line);
                    }
                }
                assert forall|line2: u32| !listed(r@, line2) implies #[trigger] line_hits(
                    m,
                    line2,
                    (i + 1) as nat,
                ) == 0 by {
                    if listed(r0, line2) {
                        let k0 = choose|k2: int| 0 <= k2 < r0.len() && #[trigger] r0[k2].0 == line2;
                        assert(r@[k0].0 == line2);
                        assert(listed(r@, line2));
                    }
                    if found {
                        assert(r@[k as int].0 == line);
                    } else {
                        assert(r@[r0.len() as int].0 == line);
                    }
                    assert(line2 != line);
                    assert(line_hits(m, line2, i as nat) == 0);
                }
            }
            i = i + 1;
        }
        proof {
            assert forall|line: u32| line_touched(self@, line) implies #[trigger] listed(r@, line) by {
                let j = choose|j: int| 0 <= j < m.statement_map.len() && #[trigger] m.statement_map[j].start.line == line;
                assert(listed(r@, m.statement_map[j].start.line));
            }
            assert forall|k: int| 0 <= k < r@.len() implies line_touched(self@, #[trigger] r@[k].0) by {
                assert(touched_before(m, r@[k].0, n as int));
            }
        }
        r
    }

    /// Replaces the input source map, without looking at it.
    pub fn set_input_source_map(&mut self, map: Option<String>)
        requires
            old(self).wf(),
        ensures
            final(self).wf(),
            final(self).frozen() == old(self).frozen(),
            final(self)@ == (CoverageModel {
                input_source_map: match map {
                    Some(m) => Some(m@),
                    None => None,
                },
                ..old(self)@
            }),
    {
        self.data.input_source_map = map;
        proof {
            assert(self@ =~= (CoverageModel {
                input_source_map: match map {
                    Some(m) => Some(m@),
                    None => None,
                },
                ..old(self)@
            }));
        }
    }
}

/// Freezing twice exports the same report as freezing once.
pub proof fn lemma_freeze_idempotent(c0: SourceCoverage, c1: SourceCoverage, c2: SourceCoverage)
    requires
        SourceCoverage::froze(c0, c1),
        SourceCoverage::froze(c1, c2),
    ensures
        c2@ == c1@,
        c2.frozen() == c1.frozen(),
        c2@ == c0@,
{
}

/// An exported report can be imported again, and the imported report
/// exports the same record.
pub proof fn lemma_export_round_trip(c: SourceCoverage)
    requires
        c.wf(),
    ensures
        import_model(c@) == Some(c@),
        import_error(c@) is None,
{
}

/// A count after one more hit, held at the largest `u32`.
pub open spec fn bump(c: u32) -> u32 {
    if c < u32::MAX {
        (c + 1) as u32
    } else {
        c
    }
}

fn bump_count(c: u32) -> (r: u32)
    ensures
        r == bump(c),
{
    if c < u32::MAX {
        c + 1
    } else {
        c
    }
}

fn bumped_at(v: &Vec<u32>, arm: usize) -> (r: Vec<u32>)
    requires
        arm < v@.len(),
    ensures
        r@ == v@.update(arm as int, bump(v@[arm as int])),
{
    let mut r: Vec<u32> = Vec::new();
    let mut i: usize = 0;
    while i < v.len()
        invariant
            i <= v@.len(),
            arm < v@.len(),
            r@ == v@.update(arm as int, bump(v@[arm as int])).subrange(0, i as int),
        decreases v@.len() - i,
    {
        if i == arm {
            r.push(bump_count(v[i]));
        } else {
            r.push(v[i]);
        }
        i = i + 1;
        assert(r@ =~= v@.update(arm as int, bump(v@[arm as int])).subrange(0, i as int));
    }
    assert(r@ =~= v@.update(arm as int, bump(v@[arm as int])));
    r
}

fn zero_counts(n: usize) -> (r: Vec<u32>)
    ensures
        r@ == Seq::new(n as nat, |i: int| 0u32),
{
    let mut r: Vec<u32> = Vec::new();
    let mut i: usize = 0;
    while i < n
        invariant
            i <= n,
            r@ == Seq::new(i as nat, |k: int| 0u32),
        decreases n - i,
    {
        r.push(0);
        i = i + 1;
        assert(r@ =~= Seq::new(i as nat, |k: int| 0u32));
    }
    r
}

} // verus!
