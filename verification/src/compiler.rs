//! Lowering of terminators, emission of whole functions, and the program
//! driver that emits every reachable function exactly once.
//!
//! Control flow is linearized through a flat dispatch loop: each function
//! becomes one labeled `while` loop wrapping a `switch` on a mutable block
//! variable `g`, with one `case` per basic block, in declaration order. Every
//! jump is an assignment to `g` followed by a restart of the loop. This is
//! universal: it renders any control-flow graph, including irreducible ones,
//! without a restructuring algorithm.
//!
//! The driver keeps a work list of discovered item identifiers, deduplicated
//! against everything already discovered, so a recursive or mutually
//! recursive call graph is emitted exactly once per function and emission
//! terminates. Unsupported constructs (indirect calls, promoted constant
//! slots, closure captures) abort the whole emission with an error naming
//! the offending construct and its location; no partial output is returned.

use vstd::prelude::*;

use crate::codegen::{
    arg_name, args_str, dec, item_name, lvalue_get, lvalue_set, operand_str, spec_arg_name,
    spec_args, spec_dec, spec_item_name, spec_literal, spec_lvalue_get, spec_lvalue_set,
    spec_operand, spec_statement, spec_tmp_name, spec_var_name, statement_str, tmp_name, var_name,
    literal_str,
};
use crate::ir::{
    BasicBlockData, Body, ItemId, Literal, Operand, Program, Statement, Terminator,
};

verus! {

/// The universal jump: set the dispatch variable to the target block's label
/// and restart the dispatch loop.
pub open spec fn spec_goto(target: nat) -> Seq<char> {
    "g="@ + spec_dec(target) + ";continue t;"@
}

/// The case arms of a `Switch` lowering: one `case` per declared variant tag,
/// each jumping to its target block.
pub open spec fn spec_switch_cases(targets: Seq<(u64, usize)>) -> Seq<char>
    decreases targets,
{
    if targets.len() == 0 {
        Seq::empty()
    } else {
        spec_switch_cases(targets.drop_last()) + "case "@ + spec_dec(targets.last().0 as nat)
            + ":"@ + spec_goto(targets.last().1 as nat)
    }
}

/// The case arms of a `SwitchInt` lowering: one `case` per listed value.
pub open spec fn spec_switch_int_cases(targets: Seq<(Literal, usize)>) -> Seq<char>
    decreases targets,
{
    if targets.len() == 0 {
        Seq::empty()
    } else {
        spec_switch_int_cases(targets.drop_last()) + "case "@ + spec_literal(targets.last().0)
            + ":"@ + spec_goto(targets.last().1 as nat)
    }
}

/// A call expression: the rendered callee applied to the rendered arguments.
pub open spec fn spec_call_expr(func: Operand, args: Seq<Operand>) -> Seq<char> {
    spec_operand(func) + "("@ + spec_args(args) + ")"@
}

/// The runtime-visible diagnostic emitted for an `Unreachable` terminator:
/// reaching it is a defect of the source program, and must be loud.
pub open spec fn spec_unreachable_text() -> Seq<char> {
    "alert('Cyano error: Basic block terminated with unreachable.');"@
}

/// The lowering of one terminator to target statements.
pub open spec fn spec_terminator(t: Terminator) -> Seq<char> {
    match t {
        Terminator::Goto { target } => spec_goto(target as nat),
        Terminator::If { cond, then_target, else_target } => "if("@ + spec_operand(cond) + "){"@
            + spec_goto(then_target as nat) + "}else{"@ + spec_goto(else_target as nat) + "}"@,
        Terminator::Switch { discr, targets } => "switch("@ + spec_lvalue_get(discr) + ".d){"@
            + spec_switch_cases(targets@) + "}"@,
        Terminator::SwitchInt { discr, targets, otherwise } => "switch("@ + spec_operand(discr)
            + "){"@ + spec_switch_int_cases(targets@) + "default:"@ + spec_goto(otherwise as nat)
            + "}"@,
        Terminator::Resume => Seq::empty(),
        Terminator::Return => "return r;"@,
        Terminator::Unreachable => spec_unreachable_text(),
        Terminator::Drop { location, target } => "delete "@ + spec_lvalue_get(location) + ";"@
            + spec_goto(target as nat),
        Terminator::DropAndReplace { location, value, target } => spec_lvalue_set(
            location,
            spec_operand(value),
        ) + ";"@ + spec_goto(target as nat),
        Terminator::Call { func, args, destination } => match destination {
            Some((dest, cont)) => spec_lvalue_set(dest, spec_call_expr(func, args@)) + ";"@
                + spec_goto(cont as nat),
            None => spec_call_expr(func, args@) + ";"@,
        },
    }
}

/// Whether a terminator has a defined lowering. Only a call whose callee is
/// not a constant item reference (an indirect call) is unsupported.
pub open spec fn spec_term_supported(t: Terminator) -> bool {
    match t {
        Terminator::Call { func, .. } => func matches Operand::Constant(Literal::Item(_)),
        _ => true,
    }
}

/// The statements of one block, in order.
pub open spec fn spec_statements(sts: Seq<Statement>) -> Seq<char>
    decreases sts,
{
    if sts.len() == 0 {
        Seq::empty()
    } else {
        spec_statements(sts.drop_last()) + spec_statement(sts.last())
    }
}

/// The lowering of one basic block: its statements, then its terminator.
pub open spec fn spec_bb_text(bb: BasicBlockData) -> Seq<char> {
    spec_statements(bb.statements@) + spec_terminator(bb.terminator)
}

/// One case of the dispatch switch: the block's own index as the label, the
/// block's lowering, and an explicit `break` out of the switch (the loop then
/// restarts and re-dispatches).
pub open spec fn spec_case_entry(label: nat, bb: BasicBlockData) -> Seq<char> {
    "case "@ + spec_dec(label) + ":"@ + spec_bb_text(bb) + "break;"@
}

/// The dispatch switch's cases: one per basic block, in declaration order,
/// labeled by block index.
pub open spec fn spec_cases(blocks: Seq<BasicBlockData>) -> Seq<char>
    decreases blocks,
{
    if blocks.len() == 0 {
        Seq::empty()
    } else {
        spec_cases(blocks.drop_last()) + spec_case_entry(
            (blocks.len() - 1) as nat,
            blocks.last(),
        )
    }
}

/// The parameter list of an emitted function: one parameter per argument, in
/// declared order, each followed by a comma.
pub open spec fn spec_params(n: u32) -> Seq<char>
    decreases n,
{
    if n == 0 {
        Seq::empty()
    } else {
        spec_params((n - 1) as u32) + spec_arg_name((n - 1) as u32) + ","@
    }
}

/// The declarations of the named local variables, each preceded by a comma
/// (they continue the `var r` declaration of the return slot).
pub open spec fn spec_var_decls(n: u32) -> Seq<char>
    decreases n,
{
    if n == 0 {
        Seq::empty()
    } else {
        spec_var_decls((n - 1) as u32) + ","@ + spec_var_name((n - 1) as u32)
    }
}

/// The declarations of the temporaries, each preceded by a comma.
pub open spec fn spec_tmp_decls(n: u32) -> Seq<char>
    decreases n,
{
    if n == 0 {
        Seq::empty()
    } else {
        spec_tmp_decls((n - 1) as u32) + ","@ + spec_tmp_name((n - 1) as u32)
    }
}

/// The index of every function's entry block: by convention the block at
/// index 0, where the dispatch loop starts.
pub open spec fn spec_entry_label() -> nat {
    0
}

/// One whole emitted function: the header with its parameters; the dispatch
/// variable initialized to the entry block's label and the return slot; the
/// local declarations; and the labeled dispatch loop with one case per
/// block.
pub open spec fn spec_fn_text(id: ItemId, body: Body) -> Seq<char> {
    "function "@ + spec_item_name(id) + "("@ + spec_params(body.arg_count)
        + "){var g="@ + spec_dec(spec_entry_label()) + ";var r"@ + spec_var_decls(body.var_count)
        + spec_tmp_decls(body.temp_count) + ";t:while(true){switch(g){"@ + spec_cases(
        body.basic_blocks@,
    ) + "}}}"@
}

/// Whether a whole body has a defined lowering: no promoted constant slots,
/// no closure captures, and every terminator supported.
pub open spec fn spec_body_supported(body: Body) -> bool {
    &&& body.promoted_count == 0
    &&& body.upvar_count == 0
    &&& forall|b: int|
        0 <= b < body.basic_blocks@.len() ==> spec_term_supported(
            #[trigger] body.basic_blocks@[b].terminator,
        )
}

/// The callee discovered by one terminator: the item a supported call names.
pub open spec fn spec_term_callees(t: Terminator) -> Seq<ItemId> {
    match t {
        Terminator::Call { func: Operand::Constant(Literal::Item(id)), .. } => seq![id],
        _ => Seq::empty(),
    }
}

/// The callee discovered by one block.
pub open spec fn spec_block_callees(bb: BasicBlockData) -> Seq<ItemId> {
    spec_term_callees(bb.terminator)
}

/// The callees of a whole body, in block order: the discovery order of the
/// emission queue.
pub open spec fn spec_callees(blocks: Seq<BasicBlockData>) -> Seq<ItemId>
    decreases blocks,
{
    if blocks.len() == 0 {
        Seq::empty()
    } else {
        spec_callees(blocks.drop_last()) + spec_block_callees(blocks.last())
    }
}

/// Idempotent enqueue: appends, in order, those of `ids` that name a defined
/// item and are not already on the work list (neither emitted nor pending).
pub open spec fn spec_enqueue(p: Program, work: Seq<ItemId>, ids: Seq<ItemId>) -> Seq<ItemId>
    decreases ids.len(),
{
    if ids.len() == 0 {
        work
    } else {
        let next = if p.spec_defines(ids[0]) && !work.contains(ids[0]) {
            work.push(ids[0])
        } else {
            work
        };
        spec_enqueue(p, next, ids.drop_first())
    }
}

/// How many identifiers of `dom` are not yet in `emitted`: the termination
/// measure of the driver's drain.
pub open spec fn count_unemitted(dom: Seq<ItemId>, emitted: Seq<ItemId>) -> nat
    decreases dom.len(),
{
    if dom.len() == 0 {
        0
    } else {
        (if emitted.contains(dom[0]) {
            0nat
        } else {
            1nat
        }) + count_unemitted(dom.drop_first(), emitted)
    }
}

pub proof fn lemma_count_push_le(dom: Seq<ItemId>, emitted: Seq<ItemId>, x: ItemId)
    ensures
        count_unemitted(dom, emitted.push(x)) <= count_unemitted(dom, emitted),
    decreases dom.len(),
{
    if dom.len() > 0 {
        if emitted.contains(dom[0]) {
            assert(emitted.push(x).contains(dom[0])) by {
                let j = choose|j: int| 0 <= j < emitted.len() && emitted[j] == dom[0];
                assert(emitted.push(x)[j] == dom[0]);
            }
        }
        lemma_count_push_le(dom.drop_first(), emitted, x);
    }
}

pub proof fn lemma_count_push_eq(dom: Seq<ItemId>, emitted: Seq<ItemId>, x: ItemId)
    requires
        !dom.contains(x) || emitted.contains(x),
    ensures
        count_unemitted(dom, emitted.push(x)) == count_unemitted(dom, emitted),
    decreases dom.len(),
{
    if dom.len() > 0 {
        assert(dom.contains(dom[0]));
        if emitted.push(x).contains(dom[0]) && !emitted.contains(dom[0]) {
            let j = choose|j: int|
                0 <= j < emitted.push(x).len() && emitted.push(x)[j] == dom[0];
            assert(j == emitted.len());
            assert(dom[0] == x);
            assert(emitted.contains(x));
        }
        if emitted.contains(dom[0])  {
            let j = choose|j: int| 0 <= j < emitted.len() && emitted[j] == dom[0];
            assert(emitted.push(x)[j] == dom[0]);
        }
        assert(dom.drop_first().contains(x) ==> dom.contains(x)) by {
            if dom.drop_first().contains(x) {
                let j = choose|j: int|
                    0 <= j < dom.drop_first().len() && dom.drop_first()[j] == x;
                assert(dom[j + 1] == x);
            }
        }
        lemma_count_push_eq(dom.drop_first(), emitted, x);
    }
}

pub proof fn lemma_count_push_lt(dom: Seq<ItemId>, emitted: Seq<ItemId>, x: ItemId)
    requires
        dom.contains(x),
        !emitted.contains(x),
    ensures
        count_unemitted(dom, emitted.push(x)) < count_unemitted(dom, emitted),
    decreases dom.len(),
{
    let j = choose|j: int| 0 <= j < dom.len() && dom[j] == x;
    if j == 0 {
        assert(emitted.push(x).contains(dom[0])) by {
            assert(emitted.push(x)[emitted.len() as int] == x);
        }
        lemma_count_push_le(dom.drop_first(), emitted, x);
    } else {
        assert(dom.drop_first().contains(x)) by {
            assert(dom.drop_first()[j - 1] == x);
        }
        lemma_count_push_lt(dom.drop_first(), emitted, x);
        if emitted.contains(dom[0]) {
            let k = choose|k: int| 0 <= k < emitted.len() && emitted[k] == dom[0];
            assert(emitted.push(x)[k] == dom[0]);
        }
    }
}

/// `spec_enqueue` only ever appends: the first `k` entries of the work list
/// stay as they are.
pub proof fn lemma_enqueue_prefix(p: Program, work: Seq<ItemId>, ids: Seq<ItemId>, k: int)
    requires
        0 <= k <= work.len(),
    ensures
        work.len() <= spec_enqueue(p, work, ids).len(),
        spec_enqueue(p, work, ids).take(k) =~= work.take(k),
    decreases ids.len(),
{
    if ids.len() > 0 {
        let next = if p.spec_defines(ids[0]) && !work.contains(ids[0]) {
            work.push(ids[0])
        } else {
            work
        };
        lemma_enqueue_prefix(p, next, ids.drop_first(), k);
        assert(next.take(k) =~= work.take(k));
    }
}

/// The emission order of the driver: starting from the work list `work` with
/// the first `i` entries already emitted, repeatedly emit the next pending
/// entry and append its not-yet-discovered defined callees, until the list
/// is drained. Returns the final work list, which is the emission order.
pub open spec fn drain(p: Program, work: Seq<ItemId>, i: int) -> Seq<ItemId>
    decreases count_unemitted(p.spec_ids(), work.take(i)), work.len() - i,
{
    if i < 0 || i >= work.len() {
        work
    } else if p.spec_defines(work[i]) && !work.take(i).contains(work[i]) {
        let next = spec_enqueue(
            p,
            work,
            spec_callees(p.spec_body_of(work[i]).basic_blocks@),
        );
        proof {
            lemma_enqueue_prefix(p, work, spec_callees(p.spec_body_of(work[i]).basic_blocks@), i + 1);
            assert(next.take(i + 1) =~= work.take(i + 1));
            assert(work.take(i + 1) =~= work.take(i).push(work[i]));
            lemma_count_push_lt(p.spec_ids(), work.take(i), work[i]);
        }
        drain(p, next, i + 1)
    } else {
        proof {
            assert(work.take(i + 1) =~= work.take(i).push(work[i]));
            lemma_count_push_eq(p.spec_ids(), work.take(i), work[i]);
        }
        drain(p, work, i + 1)
    }
}

/// The emission order for a whole program from a designated entry item.
pub open spec fn spec_order(p: Program, entry: ItemId) -> Seq<ItemId> {
    drain(p, seq![entry], 0)
}

/// The emitted definitions, one per identifier of the emission order.
pub open spec fn spec_fns_texts(p: Program, order: Seq<ItemId>) -> Seq<char>
    decreases order,
{
    if order.len() == 0 {
        Seq::empty()
    } else {
        spec_fns_texts(p, order.drop_last()) + spec_fn_text(
            order.last(),
            p.spec_body_of(order.last()),
        )
    }
}

/// The whole output unit: an immediately-invoked anonymous function that
/// first calls the entry item, then defines every function the entry
/// transitively calls, in discovery order.
pub open spec fn spec_unit_text(p: Program, entry: ItemId) -> Seq<char> {
    "function(){"@ + spec_item_name(entry) + "();"@ + spec_fns_texts(p, spec_order(p, entry))
        + "}()"@
}

/// Whether emission succeeds: the entry is defined and every function it
/// transitively reaches has a defined lowering.
pub open spec fn spec_emittable(p: Program, entry: ItemId) -> bool {
    &&& p.spec_defines(entry)
    &&& forall|k: int|
        0 <= k < spec_order(p, entry).len() ==> spec_body_supported(
            p.spec_body_of(#[trigger] spec_order(p, entry)[k]),
        )
}


/// Enqueueing a concatenation enqueues the two parts in turn.
pub proof fn lemma_enqueue_append(p: Program, work: Seq<ItemId>, a: Seq<ItemId>, b: Seq<ItemId>)
    ensures
        spec_enqueue(p, work, a + b) == spec_enqueue(p, spec_enqueue(p, work, a), b),
    decreases a.len(),
{
    if a.len() == 0 {
        assert(a + b =~= b);
    } else {
        let ab = a + b;
        assert(ab[0] == a[0]);
        assert(ab.drop_first() =~= a.drop_first() + b);
        let next = if p.spec_defines(a[0]) && !work.contains(a[0]) {
            work.push(a[0])
        } else {
            work
        };
        lemma_enqueue_append(p, next, a.drop_first(), b);
    }
}

/// Why an emission was aborted. Every error identifies the offending
/// construct; those arising inside a function name it and, for a bad call,
/// the basic block holding it.
#[derive(Clone, Copy, Debug, PartialEq, Eq, Structural)]
pub enum EmitError {
    /// A call whose callee does not resolve to a constant item reference:
    /// indirect calls have no lowering.
    IndirectCall { item: ItemId, block: usize },
    /// The body declares promoted constant slots, which have no lowering.
    Promoted { item: ItemId },
    /// The body declares closure captures, which have no lowering.
    Upvars { item: ItemId },
    /// The designated entry item is not defined by the program.
    UndefinedEntry { entry: ItemId },
}

/// Renders the universal jump to `target`.
pub fn goto_str(target: usize) -> (r: String)
    ensures
        r@ == spec_goto(target as nat),
{
    let mut s = "g=".to_owned();
    s.append(dec(target as u64).as_str());
    s.append(";continue t;");
    proof {
        assert(s@ =~= spec_goto(target as nat));
    }
    s
}

fn contains_id(v: &Vec<ItemId>, id: ItemId) -> (r: bool)
    ensures
        r == v@.contains(id),
{
    let mut i: usize = 0;
    while i < v.len()
        invariant
            i <= v@.len(),
            forall|j: int| 0 <= j < i ==> v@[j] != id,
        decreases v@.len() - i,
    {
        if v[i] == id {
            return true;
        }
        i = i + 1;
    }
    false
}

/// The emitter: wraps the host-supplied program and drives emission.
pub struct Compiler {
    /// The item-identifier-to-body lookup, supplied by the host front end
    /// and read-only here.
    pub program: Program,
}

impl Compiler {
    /// Wraps a program for emission.
    pub fn new(program: Program) -> (r: Compiler)
        ensures
            r.program == program,
    {
        Compiler { program }
    }

    /// Appends `id` to the work list unless it is undefined or already
    /// discovered: the idempotent enqueue that keeps recursive call graphs
    /// from being emitted twice or forever.
    fn enqueue(&self, work: &mut Vec<ItemId>, id: ItemId)
        ensures
            final(work)@ == spec_enqueue(self.program, old(work)@, seq![id]),
    {
        let known = self.program.lookup(id).is_some();
        if known && !contains_id(work, id) {
            work.push(id);
        }
        proof {
            let ids = seq![id];
            let next = if self.program.spec_defines(id) && !old(work)@.contains(id) {
                old(work)@.push(id)
            } else {
                old(work)@
            };
            assert(ids[0] == id);
            assert(ids.drop_first() =~= Seq::<ItemId>::empty());
            assert(spec_enqueue(self.program, next, ids.drop_first()) == next);
            assert(final(work)@ == next);
        }
    }

    /// Lowers one basic block into `out`: its statements, then its
    /// terminator. A discovered callee is enqueued on `work`. Fails on an
    /// indirect call, identifying the function and block.
    fn write_bb(
        &self,
        item: ItemId,
        block: usize,
        bb: &BasicBlockData,
        out: &mut String,
        work: &mut Vec<ItemId>,
    ) -> (r: Result<(), EmitError>)
        ensures
            match r {
                Ok(()) => {
                    &&& spec_term_supported(bb.terminator)
                    &&& final(out)@ == old(out)@ + spec_bb_text(*bb)
                    &&& final(work)@ == spec_enqueue(
                        self.program,
                        old(work)@,
                        spec_block_callees(*bb),
                    )
                },
                Err(e) => {
                    &&& !spec_term_supported(bb.terminator)
                    &&& e == (EmitError::IndirectCall { item, block })
                },
            },
    {
        let ghost pre = out@;
        let n = bb.statements.len();
        let mut i: usize = 0;
        while i < n
            invariant
                n == bb.statements@.len(),
                i <= n,
                out@ == pre + spec_statements(bb.statements@.take(i as int)),
            decreases n - i,
        {
            out.append(statement_str(&bb.statements[i]).as_str());
            proof {
                let cur = bb.statements@.take(i + 1 as int);
                assert(cur.drop_last() =~= bb.statements@.take(i as int));
                assert(cur.last() == bb.statements@[i as int]);
                assert(out@ =~= pre + spec_statements(cur));
            }
            i = i + 1;
        }
        proof {
            assert(bb.statements@.take(n as int) =~= bb.statements@);
        }
        let t = match self.terminator_str(item, block, &bb.terminator, work) {
            Ok(t) => t,
            Err(e) => {
                return Err(e);
            },
        };
        out.append(t.as_str());
        proof {
            assert(final(out)@ =~= pre + spec_bb_text(*bb));
        }
        Ok(())
    }

    /// Lowers one terminator to target statements, enqueuing the callee of a
    /// supported call. Fails on an indirect call.
    fn terminator_str(
        &self,
        item: ItemId,
        block: usize,
        t: &Terminator,
        work: &mut Vec<ItemId>,
    ) -> (r: Result<String, EmitError>)
        ensures
            match r {
                Ok(s) => {
                    &&& spec_term_supported(*t)
                    &&& s@ == spec_terminator(*t)
                    &&& final(work)@ == spec_enqueue(self.program, old(work)@, spec_term_callees(*t))
                },
                Err(e) => {
                    &&& !spec_term_supported(*t)
                    &&& e == (EmitError::IndirectCall { item, block })
                },
            },
    {
        let mut out = String::new();
        match t {
            Terminator::Goto { target } => {
                out.append(goto_str(*target).as_str());
            },
            Terminator::If { cond, then_target, else_target } => {
                out.append("if(");
                out.append(operand_str(cond).as_str());
                out.append("){");
                out.append(goto_str(*then_target).as_str());
                out.append("}else{");
                out.append(goto_str(*else_target).as_str());
                out.append("}");
            },
            Terminator::Switch { discr, targets } => {
                out.append("switch(");
                out.append(lvalue_get(discr).as_str());
                out.append(".d){");
                let ghost mid = out@;
                let m = targets.len();
                let mut k: usize = 0;
                while k < m
                    invariant
                        m == targets@.len(),
                        k <= m,
                        out@ == mid + spec_switch_cases(targets@.take(k as int)),
                    decreases m - k,
                {
                    out.append("case ");
                    out.append(dec(targets[k].0).as_str());
                    out.append(":");
                    out.append(goto_str(targets[k].1).as_str());
                    proof {
                        let cur = targets@.take(k + 1 as int);
                        assert(cur.drop_last() =~= targets@.take(k as int));
                        assert(cur.last() == targets@[k as int]);
                        assert(out@ =~= mid + spec_switch_cases(cur));
                    }
                    k = k + 1;
                }
                out.append("}");
                proof {
                    assert(targets@.take(m as int) =~= targets@);
                }
            },
            Terminator::SwitchInt { discr, targets, otherwise } => {
                out.append("switch(");
                out.append(operand_str(discr).as_str());
                out.append("){");
                let ghost mid = out@;
                let m = targets.len();
                let mut k: usize = 0;
                while k < m
                    invariant
                        m == targets@.len(),
                        k <= m,
                        out@ == mid + spec_switch_int_cases(targets@.take(k as int)),
                    decreases m - k,
                {
                    out.append("case ");
                    out.append(literal_str(&targets[k].0).as_str());
                    out.append(":");
                    out.append(goto_str(targets[k].1).as_str());
                    proof {
                        let cur = targets@.take(k + 1 as int);
                        assert(cur.drop_last() =~= targets@.take(k as int));
                        assert(cur.last() == targets@[k as int]);
                        assert(out@ =~= mid + spec_switch_int_cases(cur));
                    }
                    k = k + 1;
                }
                out.append("default:");
                out.append(goto_str(*otherwise).as_str());
                out.append("}");
                proof {
                    assert(targets@.take(m as int) =~= targets@);
                }
            },
            Terminator::Resume => {},
            Terminator::Return => {
                out.append("return r;");
            },
            Terminator::Unreachable => {
                out.append("alert('Cyano error: Basic block terminated with unreachable.');");
            },
            Terminator::Drop { location, target } => {
                out.append("delete ");
                out.append(lvalue_get(location).as_str());
                out.append(";");
                out.append(goto_str(*target).as_str());
            },
            Terminator::DropAndReplace { location, value, target } => {
                out.append(lvalue_set(location, operand_str(value).as_str()).as_str());
                out.append(";");
                out.append(goto_str(*target).as_str());
            },
            Terminator::Call { func, args, destination } => {
                let id = match func {
                    Operand::Constant(Literal::Item(id)) => *id,
                    _ => {
                        return Err(EmitError::IndirectCall { item, block });
                    },
                };
                self.enqueue(work, id);
                let mut call = operand_str(func);
                call.append("(");
                call.append(args_str(args).as_str());
                call.append(")");
                proof {
                    assert(call@ =~= spec_call_expr(*func, args@));
                }
                match destination {
                    Some(dest) => {
                        out.append(lvalue_set(&dest.0, call.as_str()).as_str());
                        out.append(";");
                        out.append(goto_str(dest.1).as_str());
                    },
                    None => {
                        out.append(call.as_str());
                        out.append(";");
                    },
                }
            },
        }
        proof {
            assert(out@ =~= spec_terminator(*t));
            if !(t matches Terminator::Call { .. }) {
                assert(final(work)@ == spec_enqueue(
                    self.program,
                    old(work)@,
                    spec_term_callees(*t),
                ));
            }
        }
        Ok(out)
    }
}


/// The drain only ever extends the work list: what is already on it stays,
/// in place.
pub proof fn lemma_drain_extends(p: Program, work: Seq<ItemId>, i: int)
    ensures
        work.len() <= drain(p, work, i).len(),
        drain(p, work, i).take(work.len() as int) =~= work,
    decreases count_unemitted(p.spec_ids(), work.take(i)), work.len() - i,
{
    if i < 0 || i >= work.len() {
        assert(work.take(work.len() as int) =~= work);
    } else if p.spec_defines(work[i]) && !work.take(i).contains(work[i]) {
        let callees = spec_callees(p.spec_body_of(work[i]).basic_blocks@);
        let next = spec_enqueue(p, work, callees);
        lemma_enqueue_prefix(p, work, callees, i + 1);
        assert(next.take(i + 1) =~= work.take(i + 1));
        assert(work.take(i + 1) =~= work.take(i).push(work[i]));
        lemma_count_push_lt(p.spec_ids(), work.take(i), work[i]);
        lemma_drain_extends(p, next, i + 1);
        lemma_enqueue_prefix(p, work, callees, work.len() as int);
        assert(drain(p, next, i + 1).take(work.len() as int) =~= work) by {
            assert(drain(p, next, i + 1).take(next.len() as int) =~= next);
            assert(forall|j: int|
                0 <= j < work.len() ==> drain(p, next, i + 1)[j] == next[j]);
            assert(next.take(work.len() as int) =~= work.take(work.len() as int));
            assert(work.take(work.len() as int) =~= work);
        }
    } else {
        assert(work.take(i + 1) =~= work.take(i).push(work[i]));
        lemma_count_push_eq(p.spec_ids(), work.take(i), work[i]);
        lemma_drain_extends(p, work, i + 1);
    }
}

/// The idempotent enqueue keeps the work list well formed: it adds only
/// defined identifiers not already present, so definedness of every entry
/// and freedom from duplicates are preserved.
pub proof fn lemma_enqueue_wf(p: Program, work: Seq<ItemId>, ids: Seq<ItemId>)
    ensures
        (forall|k: int| 0 <= k < work.len() ==> #[trigger] spec_enqueue(p, work, ids)[k]
            == work[k]),
        (forall|k: int| 0 <= k < work.len() ==> p.spec_defines(#[trigger] work[k]))
            ==> (forall|k: int|
            0 <= k < spec_enqueue(p, work, ids).len() ==> p.spec_defines(
                #[trigger] spec_enqueue(p, work, ids)[k],
            )),
        (forall|k1: int, k2: int| 0 <= k1 < k2 < work.len() ==> work[k1] != work[k2])
            ==> (forall|k1: int, k2: int|
            0 <= k1 < k2 < spec_enqueue(p, work, ids).len() ==> spec_enqueue(p, work, ids)[k1]
                != spec_enqueue(p, work, ids)[k2]),
    decreases ids.len(),
{
    if ids.len() == 0 {
    } else {
        let next = if p.spec_defines(ids[0]) && !work.contains(ids[0]) {
            work.push(ids[0])
        } else {
            work
        };
        let whole = spec_enqueue(p, work, ids);
        assert(whole == spec_enqueue(p, next, ids.drop_first()));
        lemma_enqueue_wf(p, next, ids.drop_first());
        assert forall|k: int| 0 <= k < work.len() implies #[trigger] whole[k] == work[k] by {
            assert(whole[k] == next[k]);
        }
        if p.spec_defines(ids[0]) && !work.contains(ids[0]) {
            if forall|k: int| 0 <= k < work.len() ==> p.spec_defines(#[trigger] work[k]) {
                assert forall|k: int| 0 <= k < next.len() implies p.spec_defines(
                    #[trigger] next[k],
                ) by {
                    if k < work.len() {
                        assert(next[k] == work[k]);
                    } else {
                        assert(next[k] == ids[0]);
                    }
                }
            }
            if forall|k1: int, k2: int| 0 <= k1 < k2 < work.len() ==> work[k1] != work[k2] {
                assert forall|k1: int, k2: int| 0 <= k1 < k2 < next.len() implies next[k1]
                    != next[k2] by {
                    if k2 == work.len() {
                        assert(next[k2] == ids[0]);
                        assert(next[k1] == work[k1]);
                        if next[k1] == ids[0] {
                            assert(work.contains(ids[0]));
                        }
                    } else {
                        assert(next[k1] == work[k1]);
                        assert(next[k2] == work[k2]);
                    }
                }
            }
        }
    }
}

impl Compiler {
    /// Emits one complete target function definition for `id` into `out`:
    /// the header with one parameter per argument, the dispatch variable and
    /// the return slot, one uninitialized declaration per local and
    /// temporary, and the dispatch loop with one `case` per basic block in
    /// declaration order. Newly discovered callees are enqueued on `work`.
    ///
    /// Fails, identifying the offender, on promoted constant slots, closure
    /// captures, or an indirect call; `out` is then meaningless to the
    /// caller, which must discard it.
    #[verifier::rlimit(50)]
    fn write_fn(
        &self,
        id: ItemId,
        body: &Body,
        out: &mut String,
        work: &mut Vec<ItemId>,
    ) -> (r: Result<(), EmitError>)
        ensures
            match r {
                Ok(()) => {
                    &&& spec_body_supported(*body)
                    &&& final(out)@ == old(out)@ + spec_fn_text(id, *body)
                    &&& final(work)@ == spec_enqueue(
                        self.program,
                        old(work)@,
                        spec_callees(body.basic_blocks@),
                    )
                },
                Err(e) => {
                    &&& !spec_body_supported(*body)
                    &&& !(e matches EmitError::UndefinedEntry { .. })
                },
            },
            body.promoted_count != 0 ==> r == Err::<(), EmitError>(EmitError::Promoted { item: id }),
            body.promoted_count == 0 && body.upvar_count != 0 ==> r == Err::<(), EmitError>(
                EmitError::Upvars { item: id },
            ),
    {
        if body.promoted_count != 0 {
            return Err(EmitError::Promoted { item: id });
        }
        if body.upvar_count != 0 {
            return Err(EmitError::Upvars { item: id });
        }
        let ghost pre = out@;
        out.append("function ");
        out.append(item_name(id).as_str());
        out.append("(");
        let ghost mark1 = out@;
        let mut i: u32 = 0;
        while i < body.arg_count
            invariant
                i <= body.arg_count,
                out@ == mark1 + spec_params(i),
            decreases body.arg_count - i,
        {
            out.append(arg_name(i).as_str());
            out.append(",");
            proof {
                assert(out@ =~= mark1 + spec_params((i + 1) as u32));
            }
            i = i + 1;
        }
        out.append("){var g=0;var r");
        proof {
            reveal_strlit("){var g=0;var r");
            reveal_strlit("){var g=");
            reveal_strlit(";var r");
            reveal_strlit("0");
            assert("){var g=0;var r"@ =~= "){var g="@ + spec_dec(spec_entry_label())
                + ";var r"@);
        }
        let ghost mark2 = out@;
        let mut i: u32 = 0;
        while i < body.var_count
            invariant
                i <= body.var_count,
                out@ == mark2 + spec_var_decls(i),
            decreases body.var_count - i,
        {
            out.append(",");
            out.append(var_name(i).as_str());
            proof {
                assert(out@ =~= mark2 + spec_var_decls((i + 1) as u32));
            }
            i = i + 1;
        }
        let ghost mark3 = out@;
        let mut i: u32 = 0;
        while i < body.temp_count
            invariant
                i <= body.temp_count,
                out@ == mark3 + spec_tmp_decls(i),
            decreases body.temp_count - i,
        {
            out.append(",");
            out.append(tmp_name(i).as_str());
            proof {
                assert(out@ =~= mark3 + spec_tmp_decls((i + 1) as u32));
            }
            i = i + 1;
        }
        out.append(";t:while(true){switch(g){");
        let ghost mark4 = out@;
        let n = body.basic_blocks.len();
        let mut b: usize = 0;
        while b < n
            invariant
                body.promoted_count == 0,
                body.upvar_count == 0,
                n == body.basic_blocks@.len(),
                b <= n,
                out@ == mark4 + spec_cases(body.basic_blocks@.take(b as int)),
                work@ == spec_enqueue(
                    self.program,
                    old(work)@,
                    spec_callees(body.basic_blocks@.take(b as int)),
                ),
                forall|j: int|
                    0 <= j < b ==> spec_term_supported(
                        #[trigger] body.basic_blocks@[j].terminator,
                    ),
            decreases n - b,
        {
            out.append("case ");
            out.append(dec(b as u64).as_str());
            out.append(":");
            match self.write_bb(id, b, &body.basic_blocks[b], out, work) {
                Ok(()) => {},
                Err(e) => {
                    proof {
                        assert(!spec_term_supported(body.basic_blocks@[b as int].terminator));
                    }
                    return Err(e);
                },
            }
            out.append("break;");
            proof {
                let cur = body.basic_blocks@.take(b + 1 as int);
                assert(cur.drop_last() =~= body.basic_blocks@.take(b as int));
                assert(cur.last() == body.basic_blocks@[b as int]);
                assert(cur.len() - 1 == b);
                assert(out@ =~= mark4 + spec_cases(cur));
                lemma_enqueue_append(
                    self.program,
                    old(work)@,
                    spec_callees(body.basic_blocks@.take(b as int)),
                    spec_block_callees(body.basic_blocks@[b as int]),
                );
                assert(spec_callees(cur) == spec_callees(body.basic_blocks@.take(b as int))
                    + spec_block_callees(body.basic_blocks@[b as int]));
            }
            b = b + 1;
        }
        out.append("}}}");
        proof {
            assert(body.basic_blocks@.take(n as int) =~= body.basic_blocks@);
            assert(final(out)@ =~= pre + spec_fn_text(id, *body));
        }
        Ok(())
    }

    /// Produces the whole output unit for the program, starting from the
    /// designated entry item: an immediately-invoked anonymous function that
    /// first calls the entry item, then defines every function the entry
    /// transitively calls — each exactly once, recursion and mutual
    /// recursion included.
    ///
    /// Succeeds exactly when the entry is defined and every reachable
    /// function has a defined lowering; otherwise the whole emission is
    /// aborted and no output unit is produced.
    pub fn finish(&self, entry: ItemId) -> (r: Result<String, EmitError>)
        ensures
            r is Ok <==> spec_emittable(self.program, entry),
            r matches Ok(s) ==> s@ == spec_unit_text(self.program, entry),
            (r matches Err(EmitError::UndefinedEntry { .. })) <==> !self.program.spec_defines(
                entry,
            ),
            r matches Err(EmitError::UndefinedEntry { entry: e }) ==> e == entry,
    {
        if self.program.lookup(entry).is_none() {
            return Err(EmitError::UndefinedEntry { entry });
        }
        let mut out = "function(){".to_owned();
        out.append(item_name(entry).as_str());
        out.append("();");
        let ghost head = out@;
        let mut work: Vec<ItemId> = Vec::new();
        work.push(entry);
        proof {
            assert(work@ =~= seq![entry]);
        }
        let ghost order = spec_order(self.program, entry);
        let mut i: usize = 0;
        while i < work.len()
            invariant
                self.program.spec_defines(entry),
                i <= work@.len(),
                order == spec_order(self.program, entry),
                drain(self.program, work@, i as int) == order,
                forall|k: int| 0 <= k < work@.len() ==> self.program.spec_defines(
                    #[trigger] work@[k],
                ),
                forall|k1: int, k2: int|
                    0 <= k1 < k2 < work@.len() ==> work@[k1] != work@[k2],
                out@ == head + spec_fns_texts(self.program, work@.take(i as int)),
                forall|k: int|
                    0 <= k < i ==> spec_body_supported(
                        self.program.spec_body_of(#[trigger] work@[k]),
                    ),
            decreases count_unemitted(self.program.spec_ids(), work@.take(i as int)),
                work@.len() - i,
        {
            let id = work[i];
            let body = match self.program.lookup(id) {
                Some(b) => b,
                None => {
                    proof {
                        assert(false);
                    }
                    return Err(EmitError::UndefinedEntry { entry });
                },
            };
            let ghost work_before = work@;
            let res = self.write_fn(id, body, &mut out, &mut work);
            proof {
                assert(work_before.take(i as int).contains(work_before[i as int]) ==> false) by {
                    if work_before.take(i as int).contains(work_before[i as int]) {
                        let j = choose|j: int|
                            0 <= j < i && work_before.take(i as int)[j] == work_before[i as int];
                        assert(work_before[j] == work_before[i as int]);
                    }
                }
            }
            match res {
                Ok(()) => {},
                Err(e) => {
                    proof {
                        lemma_drain_extends(self.program, work_before, i as int);
                        assert(order[i as int] == work_before[i as int]);
                        assert(!spec_emittable(self.program, entry));
                    }
                    return Err(e);
                },
            }
            proof {
                let p = self.program;
                let callees = spec_callees(p.spec_body_of(id).basic_blocks@);
                assert(work@ == spec_enqueue(p, work_before, callees));
                assert(drain(p, work_before, i as int) == drain(p, work@, i + 1));
                lemma_enqueue_prefix(p, work_before, callees, i + 1);
                assert(work@.take(i + 1) =~= work_before.take(i + 1));
                assert(work@.take(i + 1) =~= work@.take(i as int).push(work@[i as int]))
                    by {
                    assert(work_before.take(i + 1) =~= work_before.take(i as int).push(
                        work_before[i as int],
                    ));
                    assert(work@.take(i as int) =~= work_before.take(i as int));
                }
                assert(work@.take(i + 1)[i as int] == work@[i as int]);
                assert(work_before.take(i + 1)[i as int] == work_before[i as int]);
                assert(work@[i as int] == id);
                assert(work@.take(i + 1).drop_last() =~= work@.take(i as int));
                assert(work@.take(i + 1).last() == id);
                assert(spec_fns_texts(p, work@.take(i + 1)) == spec_fns_texts(
                    p,
                    work@.take(i as int),
                ) + spec_fn_text(id, p.spec_body_of(id)));
                assert(work@.take(i as int) =~= work_before.take(i as int));
                assert(out@ =~= head + spec_fns_texts(p, work@.take(i + 1)));
                lemma_enqueue_wf(p, work_before, callees);
                lemma_count_push_lt(p.spec_ids(), work_before.take(i as int), work_before[i as int]);
                assert(count_unemitted(p.spec_ids(), work@.take(i + 1)) < count_unemitted(
                    p.spec_ids(),
                    work_before.take(i as int),
                ));
            }
            i = i + 1;
        }
        out.append("}()");
        proof {
            let p = self.program;
            assert(drain(p, work@, i as int) == work@);
            assert(work@.take(i as int) =~= work@);
            assert(out@ =~= spec_unit_text(p, entry));
            assert(spec_emittable(p, entry));
        }
        Ok(out)
    }
}

} // verus!

