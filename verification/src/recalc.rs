//! Recalculation of workbooks: formulas are run in order, and their values come into their cells.
use crate::depgraph::{is_topo, TopoResult};
use crate::edit_law::{edits_stay_settled, held_after, is_edit};
use crate::engine::{
    after_seeds, book_sizes, cell_value, circ_writes, due, entry_of, get_cell_value,
    get_range_values, known_of, range_value, seed_keys, settle, write_of, write_seq, BookSheet,
    CellWrite, Entry, FormulaCell, FormulaEngine, Known, Round, Seed,
};
use crate::evaluator::{
    answers, corner, eval, may_ask, scalar, scalar_arg, spec_split_top_range, split_top_range,
    EvaluatedArg, Evaluator, Oracle, Query, Question, Reply, Step,
};
use crate::parse::{parse_formula, Ast, AstNode};
use crate::recalc_law::{made, round_follows_plan, tidy};
use crate::text::texts;
use crate::value::{FValue, FormulaError, FormulaValue};
use crate::value_law::{
    answers_of, are_held, holds_values, is_given, is_history, is_round, is_settled, is_told,
    rest_stays, round_settles, same_answers, values_told_apart, Host, Telling,
};
use crate::write_back::{book_view, with_writes, write_back};
use vstd::prelude::*;

verus! {

/// Where a formula stands, and what its cells hold: what was written in this round, and otherwise
/// what the workbook holds.
pub struct EvalContext<'a> {
    pub sheets: &'a Vec<BookSheet>,
    pub writes: &'a Vec<CellWrite>,
    pub sheet_name: &'a str,
    pub row: u32,
    pub col: u32,
}

/// The functions that formulas may call, the names that they may read, and the arithmetic of
/// numbers. Users of the library implement it.
pub trait FunctionRegistry {
    /// The answer to a question. It is never asked for the values of cells and ranges.
    fn answer(&self, q: Query, at: &EvalContext) -> (r: Reply);
}

/// Whether a registry answers by what an oracle says where a formula stands, whatever the formula
/// may ask: of the functions that it calls itself and the names that it reads, and no others.
pub open spec fn answers_at<R: FunctionRegistry>(
    registry: R,
    at: EvalContext,
    node: Ast,
    o: Oracle,
) -> bool {
    forall|q: Query, r: Reply| #[trigger]
        call_ensures(R::answer, (&registry, q, &at), r) && may_ask(node, q@) ==> answers(o, q@, r)
}

/// What a formula is told where it stands: cells by what they hold, all else by an oracle.
pub open spec fn told_at(o: Oracle, at: EvalContext) -> Oracle {
    answers_of(o, at.sheets@, at.writes@, at.sheet_name@)
}

/// Runs a formula. The value of a range is that of its upper left cell. The registry is handed the
/// place of the formula, the workbook and what was written, and where its answers are those of an
/// oracle the value is that of the formula; so it is, whatever the registry, where nothing is asked.
pub fn evaluate<R: FunctionRegistry>(node: &AstNode, registry: &R, at: &EvalContext) -> (r:
    FormulaValue)
    ensures
        forall|o: Oracle| #[trigger]
            answers_at(*registry, *at, node.view(), o) ==> r@ == scalar(
                eval(node.view(), told_at(o, *at)),
            ),
{
    let mut machine: Evaluator = Evaluator::new(node);
    let ghost first = machine;
    let mut step: Step = machine.start();
    proof {
        assert forall|o: Oracle| #[trigger]
            answers_at(*registry, *at, node.view(), o) implies first.rest(told_at(o, *at)) == eval(
            node.view(),
            told_at(o, *at),
        ) by {}
    }
    loop
        invariant
            match step {
                Step::Ask(q) => {
                    &&& machine.wf()
                    &&& machine.question() == Some(q@)
                    &&& q is Cell || q is Range || may_ask(node.view(), q@)
                    &&& forall|x: Question| #[trigger]
                        machine.asks(x) ==> may_ask(node.view(), x)
                    &&& forall|o: Oracle| #[trigger]
                        answers_at(*registry, *at, node.view(), o) ==> machine.rest(told_at(o, *at))
                            == eval(node.view(), told_at(o, *at))
                },
                Step::Done(v) => forall|o: Oracle| #[trigger]
                    answers_at(*registry, *at, node.view(), o) ==> v@ == eval(
                        node.view(),
                        told_at(o, *at),
                    ),
            },
        decreases
                (match step {
                    Step::Ask(_) => machine.left() + 1,
                    Step::Done(_) => 0nat,
                }),
    {
        let q: Query = match step {
            Step::Done(v) => {
                return scalar_arg(Some(&v));
            },
            Step::Ask(q) => q,
        };
        let ghost asked = q@;
        let reply: Reply = match q {
            Query::Cell(r) => Reply::Value(
                get_cell_value(at.sheets, at.writes, at.sheet_name, r.as_str()),
            ),
            Query::Range(a, b) => Reply::Rows(
                get_range_values(at.sheets, at.writes, at.sheet_name, a.as_str(), b.as_str()),
            ),
            other => {
                let given: Reply = registry.answer(other, at);
                assert(call_ensures(R::answer, (registry, other, at), given));
                given
            },
        };
        let ghost paused = machine;
        proof {
            assert forall|o: Oracle| #[trigger]
                answers_at(*registry, *at, node.view(), o) implies answers(
                told_at(o, *at),
                paused.question()->0,
                reply,
            ) && paused.rest(told_at(o, *at)) == eval(node.view(), told_at(o, *at)) by {
                assert(paused.question()->0 == asked);
            }
        }
        step = machine.resume(reply);
    }
}

/// The value that a reference stands for where a formula stands, when a function makes the
/// reference as a text: that of a cell, or of the upper left one of a range.
pub fn fetch(at: &EvalContext, reference: &str) -> (r: FormulaValue)
    ensures
        r@ == match spec_split_top_range(reference@) {
            Some((a, b)) => corner(range_value(at.sheets@, at.writes@, at.sheet_name@, a, b)),
            None => cell_value(at.sheets@, at.writes@, at.sheet_name@, reference@),
        },
{
    match split_top_range(reference) {
        Some((a, b)) => {
            let rows: Vec<Vec<FormulaValue>> = get_range_values(
                at.sheets,
                at.writes,
                at.sheet_name,
                a.as_str(),
                b.as_str(),
            );
            scalar_arg(Some(&EvaluatedArg::Range(rows)))
        },
        None => get_cell_value(at.sheets, at.writes, at.sheet_name, reference),
    }
}

// ---- a round

proof fn made_grows(
    cells: Map<Seq<char>, Entry>,
    plan: Seq<Seq<char>>,
    values: Seq<FValue>,
    i: int,
    n: int,
)
    requires
        0 <= i <= n,
    ensures
        made(cells, plan, values, i).len() <= made(cells, plan, values, n).len(),
        made(cells, plan, values, n).take(made(cells, plan, values, i).len() as int) == made(
            cells,
            plan,
            values,
            i,
        ),
    decreases n - i,
{
    if i < n {
        made_grows(cells, plan, values, i, n - 1);
    }
}

proof fn made_before(
    cells: Map<Seq<char>, Entry>,
    plan: Seq<Seq<char>>,
    v: Seq<FValue>,
    w: Seq<FValue>,
    n: int,
)
    requires
        forall|i: int| 0 <= i < n ==> #[trigger] v[i] == w[i],
    ensures
        made(cells, plan, v, n) == made(cells, plan, w, n),
    decreases n,
{
    if n > 0 {
        made_before(cells, plan, v, w, n - 1);
        assert(v[n - 1] == w[n - 1]);
    }
}

/// What a round has written, by how many formulas of its plan are done.
spec fn kept_so_far(
    cells: Map<Seq<char>, Entry>,
    plan: Seq<Seq<char>>,
    cyclic: Seq<Seq<char>>,
    values: Seq<FValue>,
    kept: Seq<Seq<CellWrite>>,
    d: int,
) -> bool {
    &&& kept.len() == d + 1
    &&& forall|i: int|
        0 <= i <= d ==> write_seq(#[trigger] kept[i]) == circ_writes(cells, cyclic) + made(
            cells,
            plan,
            values,
            i,
        )
}

/// Those up to `j`, where a round has gone from place `d` to place `j` at once.
spec fn kept_on(
    cells: Map<Seq<char>, Entry>,
    plan: Seq<Seq<char>>,
    cyclic: Seq<Seq<char>>,
    values: Seq<FValue>,
    kept: Seq<Seq<CellWrite>>,
    d: int,
    j: int,
    now: Seq<CellWrite>,
) -> Seq<Seq<CellWrite>> {
    Seq::new(
        (j + 1) as nat,
        |i: int|
            if i < d {
                kept[i]
            } else {
                now.take(
                    (circ_writes(cells, cyclic).len() + made(cells, plan, values, i).len()) as int,
                )
            },
    )
}

proof fn keeps_on(
    cells: Map<Seq<char>, Entry>,
    plan: Seq<Seq<char>>,
    cyclic: Seq<Seq<char>>,
    values: Seq<FValue>,
    kept: Seq<Seq<CellWrite>>,
    d: int,
    j: int,
    now: Seq<CellWrite>,
)
    requires
        0 <= d <= j,
        kept_so_far(cells, plan, cyclic, values, kept, d),
        write_seq(now) == circ_writes(cells, cyclic) + made(cells, plan, values, j),
    ensures
        kept_so_far(
            cells,
            plan,
            cyclic,
            values,
            kept_on(cells, plan, cyclic, values, kept, d, j, now),
            j,
        ),
        kept_on(cells, plan, cyclic, values, kept, d, j, now)[j] == now,
{
    let base = circ_writes(cells, cyclic);
    let next = kept_on(cells, plan, cyclic, values, kept, d, j, now);
    assert forall|i: int| 0 <= i <= j implies write_seq(#[trigger] next[i]) == base + made(
        cells,
        plan,
        values,
        i,
    ) by {
        if i >= d {
            made_grows(cells, plan, values, i, j);
            let m = made(cells, plan, values, i);
            let k = (base.len() + m.len()) as int;
            assert(write_seq(now).len() == now.len());
            assert(write_seq(now.take(k)) == write_seq(now).take(k));
            assert((base + made(cells, plan, values, j)).take(k) == base + m);
        } else {
            assert(write_seq(kept[i]) == base + made(cells, plan, values, i));
        }
    }
    assert(write_seq(now).len() == now.len());
    assert(now.take(now.len() as int) == now);
}

/// Whether the first `d` values were computed, each with what had been written by then.
spec fn computed_so_far(
    told: Telling,
    sheets: Seq<BookSheet>,
    cells: Map<Seq<char>, Entry>,
    plan: Seq<Seq<char>>,
    values: Seq<FValue>,
    kept: Seq<Seq<CellWrite>>,
    d: int,
) -> bool {
    forall|i: int|
        0 <= i < d && cells.contains_key(plan[i]) && cells[plan[i]].ast is Some ==> is_told(
            told,
            sheets,
            kept[i],
            cells[plan[i]],
            #[trigger] values[i],
        )
}

proof fn none_between(cells: Map<Seq<char>, Entry>, plan: Seq<Seq<char>>, d: int, j: int)
    requires
        0 <= d <= plan.len(),
        j == settle(cells, plan, d).0,
    ensures
        d <= j <= plan.len(),
        forall|i: int|
            d <= i < j && cells.contains_key(#[trigger] plan[i]) ==> cells[plan[i]].ast is None,
    decreases plan.len() - d,
{
    if d < plan.len() && !(cells.contains_key(plan[d]) && cells[plan[d]].ast is Some) {
        none_between(cells, plan, d + 1, j);
    }
}

/// Whether a formula stands at a place of a workbook with what was written in a round.
pub open spec fn stands_at(
    e: Entry,
    at: EvalContext,
    sheets: Seq<BookSheet>,
    writes: Seq<CellWrite>,
) -> bool {
    &&& at.sheets@ == sheets
    &&& write_seq(at.writes@) == write_seq(writes)
    &&& at.sheet_name@ == e.sheet
    &&& at.row == e.row
    &&& at.col == e.col
}

/// What a registry tells the formulas of a workbook: what an oracle says, where it answers by it
/// whatever the formula may ask.
pub open spec fn told_by<R: FunctionRegistry>(registry: R) -> Telling {
    |sheets: Seq<BookSheet>, writes: Seq<CellWrite>, e: Entry, o: Oracle|
        e.ast matches Some(a) ==> forall|at: EvalContext| #[trigger]
            stands_at(e, at, sheets, writes) ==> answers_at(registry, at, a, o)
}

/// Runs the formulas of a plan and puts their values into their cells; gives what was written.
fn run_round<R: FunctionRegistry>(
    engine: &FormulaEngine,
    registry: &R,
    sheets: &mut Vec<BookSheet>,
    topo: TopoResult,
) -> (r: Vec<CellWrite>)
    requires
        engine.wf(),
    ensures
        book_view(final(sheets)@) == with_writes(book_view(old(sheets)@), write_seq(r@)),
        is_round(
            told_by(*registry),
            old(sheets)@,
            engine.known().cells,
            texts(topo.order@),
            texts(topo.cyclic@),
            r@,
        ),
{
    let ghost cells = engine.known().cells;
    let ghost plan = texts(topo.order@);
    let ghost cyclic = texts(topo.cyclic@);
    let ghost base = circ_writes(cells, cyclic);
    let ghost n = plan.len() as int;
    let ghost told = told_by(*registry);
    let mut round: Round = engine.begin_round(topo);
    let ghost mut values: Seq<FValue> = Seq::new(plan.len(), |i: int| FValue::Blank);
    let ghost mut kept: Seq<Seq<CellWrite>> = seq![round.written()];
    proof {
        assert(base + made(cells, plan, values, 0) == base);
    }
    loop
        invariant
            engine.wf(),
            cells == engine.known().cells,
            base == circ_writes(cells, cyclic),
            n == plan.len(),
            told == told_by(*registry),
            sheets@ == old(sheets)@,
            round.plan() == plan,
            0 <= round.done() <= n,
            values.len() == n,
            write_seq(round.written()) == base + made(cells, plan, values, round.done()),
            kept_so_far(cells, plan, cyclic, values, kept, round.done()),
            computed_so_far(
                told_by(*registry),
                sheets@,
                cells,
                plan,
                values,
                kept,
                round.done(),
            ),
        ensures
            sheets@ == old(sheets)@,
            round.done() == n,
            kept_so_far(cells, plan, cyclic, values, kept, n),
            kept[n] == round.written(),
            computed_so_far(told_by(*registry), sheets@, cells, plan, values, kept, n),
        decreases n - round.done(),
    {
        let ghost d = round.done();
        let ghost before = write_seq(round.written());
        let next: Option<&FormulaCell> = engine.next_formula(&mut round);
        let ghost j = round.done();
        let ghost now = round.written();
        let ghost kept1 = kept_on(cells, plan, cyclic, values, kept, d, j, now);
        proof {
            round_follows_plan(cells, plan, values, d);
            none_between(cells, plan, d, j);
            let w = settle(cells, plan, d).1;
            assert(base + made(cells, plan, values, d) + w == base + (made(cells, plan, values, d)
                + w));
            keeps_on(cells, plan, cyclic, values, kept, d, j, now);
            assert forall|i: int|
                0 <= i < j && cells.contains_key(plan[i]) && cells[plan[i]].ast is Some implies is_told(
                told,
                sheets@,
                kept1[i],
                cells[plan[i]],
                #[trigger] values[i],
            ) by {
                assert(i < d);
            }
        }
        match next {
            None => {
                proof {
                    kept = kept1;
                }
                break;
            },
            Some(cell) => {
                let at: EvalContext = EvalContext {
                    sheets,
                    writes: round.writes(),
                    sheet_name: cell.sheet_name.as_str(),
                    row: cell.row,
                    col: cell.col,
                };
                let value: FormulaValue = match &cell.ast {
                    Some(ast) => evaluate(ast, registry, &at),
                    None => FormulaValue::Error(FormulaError::Name),
                };
                let ghost v = value@;
                engine.put(&mut round, value);
                proof {
                    let values1 = values.update(j, v);
                    assert forall|i: int| 0 <= i <= j implies made(cells, plan, values1, i) == made(
                        cells,
                        plan,
                        values,
                        i,
                    ) by {
                        made_before(cells, plan, values1, values, i);
                    }
                    assert(kept_so_far(cells, plan, cyclic, values1, kept1, j)) by {
                        assert forall|i: int| 0 <= i <= j implies write_seq(#[trigger] kept1[i])
                            == base + made(cells, plan, values1, i) by {
                            assert(made(cells, plan, values1, i) == made(cells, plan, values, i));
                        }
                    }
                    round_follows_plan(cells, plan, values1, j);
                    let w = write_of(cells[plan[j]], v);
                    assert((base + made(cells, plan, values, j)).push(w) == base + made(
                        cells,
                        plan,
                        values,
                        j,
                    ).push(w));
                    let last = round.written();
                    keeps_on(cells, plan, cyclic, values1, kept1, j, j + 1, last);
                    let kept2 = kept_on(cells, plan, cyclic, values1, kept1, j, j + 1, last);
                    assert forall|i: int|
                        0 <= i < j + 1 && cells.contains_key(plan[i])
                            && cells[plan[i]].ast is Some implies is_told(
                        told,
                        sheets@,
                        kept2[i],
                        cells[plan[i]],
                        #[trigger] values1[i],
                    ) by {
                        if i == j {
                            let e = cells[plan[j]];
                            assert(write_seq(kept2[j]) == write_seq(now));
                            assert forall|o: Oracle| #[trigger]
                                told(sheets@, kept2[j], e, o) implies v == scalar(
                                eval(e.ast->0, answers_of(o, sheets@, kept2[j], e.sheet)),
                            ) by {
                                assert(stands_at(e, at, sheets@, kept2[j]));
                                assert(answers_at(*registry, at, e.ast->0, o));
                                same_answers(o, sheets@, kept2[j], now, e.sheet);
                            }
                        } else {
                            assert(values[i] == values1[i]);
                        }
                    }
                    values = values1;
                    kept = kept2;
                }
            },
        }
    }
    let out: Vec<CellWrite> = round.into_writes();
    proof {
        assert(is_history(cells, plan, cyclic, values, kept));
        assert(kept.last() == out@);
    }
    write_back(sheets, &out);
    out
}

/// What is computed after some cells changed: what is due, or all where no formulas were read yet.
pub open spec fn computed_again(
    ready: bool,
    known: Known,
    keys: Seq<Seq<char>>,
    volatile: Seq<Seq<char>>,
) -> Set<Seq<char>> {
    if ready {
        due(known, keys, volatile)
    } else {
        known.cells.dom()
    }
}

impl FormulaEngine {
    /// Reads all formulas of a workbook, computes them and puts their values into their cells;
    /// gives what was written, in order. Each formula whose own questions the registry answers by
    /// what they ask and by where the formula stands gets what it gives of the workbook with what
    /// was written, whatever the registry's other functions do; and where no value is one that a
    /// cell does not give back, the workbook is settled. A formula that reads cells through a name
    /// is left out of this: what it reads is not to be seen in it.
    pub fn recalc_all<R: FunctionRegistry>(&mut self, sheets: &mut Vec<BookSheet>, registry: &R) -> (r: Vec<
        CellWrite,
    >)
        requires
            old(self).wf(),
        ensures
            final(self).wf(),
            final(self).ready(),
            final(self).known() == known_of(old(sheets)@),
            book_view(final(sheets)@) == with_writes(book_view(old(sheets)@), write_seq(r@)),
            exists|plan: Seq<Seq<char>>, cyclic: Seq<Seq<char>>| #[trigger]
                is_topo(
                    final(self).known().graph,
                    final(self).known().cells.dom(),
                    plan,
                    cyclic,
                ) && is_round(
                    told_by(*registry),
                    old(sheets)@,
                    final(self).known().cells,
                    plan,
                    cyclic,
                    r@,
                ),
            tidy(old(sheets)@) ==> forall|host: Host| #[trigger]
                holds_values(told_by(*registry), host, final(self).known(), old(sheets)@, r@),
            tidy(old(sheets)@) && values_told_apart(r@) ==> forall|host: Host| #[trigger]
                is_settled(
                    told_by(*registry),
                    host,
                    final(self).known(),
                    old(sheets)@,
                    final(sheets)@,
                ),
    {
        let topo: TopoResult = self.plan_all(sheets);
        let ghost plan = texts(topo.order@);
        let ghost cyclic = texts(topo.cyclic@);
        let r: Vec<CellWrite> = run_round(self, registry, sheets, topo);
        proof {
            let known = self.known();
            assert(is_topo(known.graph, known.cells.dom(), plan, cyclic));
            if tidy(old(sheets)@) {
                assert forall|host: Host|
                    #![trigger holds_values(told_by(*registry), host, known, old(sheets)@, r@)]
                    #![trigger is_settled(told_by(*registry), host, known, old(sheets)@, sheets@)]
                    holds_values(told_by(*registry), host, known, old(sheets)@, r@) && (
                    values_told_apart(r@) ==> is_settled(
                        told_by(*registry),
                        host,
                        known,
                        old(sheets)@,
                        sheets@,
                    )) by {
                    round_settles(
                        told_by(*registry),
                        host,
                        known,
                        old(sheets)@,
                        plan,
                        cyclic,
                        r@,
                        sheets@,
                    );
                }
            }
        }
        r
    }

    /// Computes again what is due after some cells changed, and puts the values into their cells;
    /// gives what was written, in order. Formulas that are due hold their values then, and so do
    /// those that held them before the change, if no value is one that a cell does not give back.
    /// Where no formulas had been read yet, all are computed.
    pub fn recalc_cells<R: FunctionRegistry>(
        &mut self,
        sheets: &mut Vec<BookSheet>,
        seeds: &Vec<Seed>,
        volatile: &Vec<String>,
        registry: &R,
    ) -> (r: Vec<CellWrite>)
        requires
            old(self).wf(),
        ensures
            final(self).wf(),
            final(self).ready(),
            final(self).known() == (if old(self).ready() {
                after_seeds(old(self).known(), old(sheets)@, book_sizes(old(sheets)@), seeds@)
            } else {
                known_of(old(sheets)@)
            }),
            book_view(final(sheets)@) == with_writes(book_view(old(sheets)@), write_seq(r@)),
            exists|plan: Seq<Seq<char>>, cyclic: Seq<Seq<char>>| #[trigger]
                is_topo(
                    final(self).known().graph,
                    computed_again(
                        old(self).ready(),
                        final(self).known(),
                        seed_keys(old(sheets)@, seeds@),
                        texts(volatile@),
                    ),
                    plan,
                    cyclic,
                ) && is_round(
                    told_by(*registry),
                    old(sheets)@,
                    final(self).known().cells,
                    plan,
                    cyclic,
                    r@,
                ),
            old(self).ready() && values_told_apart(r@) ==> forall|
                before: Host,
                host: Host,
                was: Seq<BookSheet>,
                of: Set<Seq<char>>,
            | #[trigger]
                is_edit(
                    before,
                    host,
                    old(self).known(),
                    final(self).known(),
                    was,
                    old(sheets)@,
                    seeds@,
                    texts(volatile@),
                    of,
                ) ==> rest_stays(final(self).known(), old(sheets)@, final(sheets)@) && are_held(
                    host,
                    final(self).known(),
                    final(sheets)@,
                    held_after(
                        told_by(*registry),
                        host,
                        final(self).known(),
                        seed_keys(old(sheets)@, seeds@),
                        texts(volatile@),
                        of,
                    ),
                ),
            !old(self).ready() && tidy(old(sheets)@) && values_told_apart(r@) ==> forall|host: Host|
             #[trigger]
                is_settled(
                    told_by(*registry),
                    host,
                    final(self).known(),
                    old(sheets)@,
                    final(sheets)@,
                ),
    {
        let ghost was_ready = self.ready();
        let topo: TopoResult = self.plan_cells(sheets, seeds, volatile);
        let ghost plan = texts(topo.order@);
        let ghost cyclic = texts(topo.cyclic@);
        let r: Vec<CellWrite> = run_round(self, registry, sheets, topo);
        proof {
            let known = self.known();
            assert(is_topo(
                known.graph,
                computed_again(
                    was_ready,
                    known,
                    seed_keys(old(sheets)@, seeds@),
                    texts(volatile@),
                ),
                plan,
                cyclic,
            ));
            if was_ready && values_told_apart(r@) {
                assert forall|before: Host, host: Host, was: Seq<BookSheet>, of: Set<Seq<char>>|
                 #[trigger]
                    is_edit(
                        before,
                        host,
                        old(self).known(),
                        known,
                        was,
                        old(sheets)@,
                        seeds@,
                        texts(volatile@),
                        of,
                    ) implies rest_stays(known, old(sheets)@, sheets@) && are_held(
                    host,
                    known,
                    sheets@,
                    held_after(
                        told_by(*registry),
                        host,
                        known,
                        seed_keys(old(sheets)@, seeds@),
                        texts(volatile@),
                        of,
                    ),
                ) by {
                    edits_stay_settled(
                        told_by(*registry),
                        before,
                        host,
                        old(self).known(),
                        known,
                        was,
                        old(sheets)@,
                        seeds@,
                        texts(volatile@),
                        of,
                        plan,
                        cyclic,
                        r@,
                        sheets@,
                    );
                }
            }
            if !was_ready && tidy(old(sheets)@) && values_told_apart(r@) {
                assert forall|host: Host| #[trigger]
                    is_settled(told_by(*registry), host, known, old(sheets)@, sheets@) by {
                    round_settles(
                        told_by(*registry),
                        host,
                        known,
                        old(sheets)@,
                        plan,
                        cyclic,
                        r@,
                        sheets@,
                    );
                }
            }
        }
        r
    }

    /// The value of a formula that stands in no cell; `#NAME?` where it does not parse.
    pub fn evaluate_formula<R: FunctionRegistry>(
        &self,
        sheets: &Vec<BookSheet>,
        sheet_name: &str,
        formula: &str,
        row: u32,
        col: u32,
        registry: &R,
    ) -> (r: FormulaValue)
        ensures
            is_given(
                told_by(*registry),
                sheets@,
                sheet_name@,
                row,
                col,
                formula@,
                r@,
            ),
    {
        match parse_formula(formula) {
            Err(_) => FormulaValue::Error(FormulaError::Name),
            Ok(node) => {
                let none: Vec<CellWrite> = Vec::new();
                assert(none@ == Seq::<CellWrite>::empty());
                let at: EvalContext = EvalContext { sheets, writes: &none, sheet_name, row, col };
                let r: FormulaValue = evaluate(&node, registry, &at);
                proof {
                    let told = told_by(*registry);
                    let name = sheet_name@;
                    assert forall|i: int, o: Oracle| #[trigger]
                        told(
                            sheets@,
                            none@,
                            entry_of(i, name, row, col, formula@),
                            o,
                        ) implies r@ == scalar(
                        eval(node.view(), answers_of(o, sheets@, none@, name)),
                    ) by {
                        let e = entry_of(i, name, row, col, formula@);
                        assert(stands_at(e, at, sheets@, none@));
                        assert(answers_at(*registry, at, node.view(), o));
                    }
                }
                r
            },
        }
    }
}

} // verus!
