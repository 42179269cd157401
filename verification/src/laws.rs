//! The laws of emission, stated and proved once over the specification
//! functions that the emitter's contracts are written in.

use vstd::prelude::*;

use crate::codegen::{spec_dec, spec_dec_digit, spec_hex, spec_hex_digit, spec_item_name};
use crate::compiler::{
    drain, lemma_count_push_lt, lemma_drain_extends, lemma_enqueue_prefix, lemma_enqueue_wf,
    spec_bb_text, spec_callees, spec_case_entry, spec_cases, spec_enqueue, spec_entry_label,
    spec_order,
};
use crate::ir::{BasicBlockData, ItemId, Program};

verus! {

/// No identifier appears twice in `order`: each function is defined at most
/// once in the output.
pub open spec fn emitted_once(order: Seq<ItemId>) -> bool {
    forall|k1: int, k2: int| 0 <= k1 < k2 < order.len() ==> order[k1] != order[k2]
}

/// `order` is closed under defined callees: whatever a listed function calls,
/// if the program defines it, is itself listed.
pub open spec fn order_closed(p: Program, order: Seq<ItemId>) -> bool {
    forall|k: int, j: int|
        0 <= k < order.len() && 0 <= j < spec_callees(
            p.spec_body_of(order[k]).basic_blocks@,
        ).len() && p.spec_defines(#[trigger] spec_callees(p.spec_body_of(order[k]).basic_blocks@)[j])
            ==> order.contains(spec_callees(p.spec_body_of(order[k]).basic_blocks@)[j])
}

/// Every listed identifier after the first is a callee of an earlier listed
/// function: nothing unreachable from the entry is ever emitted.
pub open spec fn order_generated(p: Program, order: Seq<ItemId>) -> bool {
    forall|k: int|
        1 <= k < order.len() ==> exists|j: int|
            0 <= j < k && spec_callees(p.spec_body_of(order[j]).basic_blocks@).contains(
                #[trigger] order[k],
            )
}

/// Whether a work list with its emission cursor is well formed: the cursor in
/// range, every entry defined, no duplicates, the processed prefix closed
/// under defined callees, and every entry after the first generated by an
/// earlier one.
pub open spec fn drain_wf(p: Program, work: Seq<ItemId>, i: int) -> bool {
    &&& 0 <= i <= work.len()
    &&& forall|k: int| 0 <= k < work.len() ==> p.spec_defines(#[trigger] work[k])
    &&& emitted_once(work)
    &&& forall|k: int, j: int|
        0 <= k < i && 0 <= j < spec_callees(p.spec_body_of(work[k]).basic_blocks@).len()
            && p.spec_defines(#[trigger] spec_callees(p.spec_body_of(work[k]).basic_blocks@)[j])
            ==> work.contains(spec_callees(p.spec_body_of(work[k]).basic_blocks@)[j])
    &&& order_generated(p, work)
}

/// What `spec_enqueue` adds and keeps: everything already listed stays
/// listed, every defined identifier of `ids` ends up listed, and every new
/// entry comes from `ids`.
proof fn lemma_enqueue_covers(p: Program, work: Seq<ItemId>, ids: Seq<ItemId>)
    ensures
        forall|x: ItemId| work.contains(x) ==> spec_enqueue(p, work, ids).contains(x),
        forall|x: ItemId|
            ids.contains(x) && p.spec_defines(x) ==> spec_enqueue(p, work, ids).contains(x),
        forall|k: int|
            work.len() <= k < spec_enqueue(p, work, ids).len() ==> ids.contains(
                #[trigger] spec_enqueue(p, work, ids)[k],
            ),
    decreases ids.len(),
{
    if ids.len() == 0 {
    } else {
        let head = ids[0];
        let next = if p.spec_defines(head) && !work.contains(head) {
            work.push(head)
        } else {
            work
        };
        let whole = spec_enqueue(p, work, ids);
        assert(whole == spec_enqueue(p, next, ids.drop_first()));
        lemma_enqueue_covers(p, next, ids.drop_first());
        assert forall|x: ItemId| work.contains(x) implies whole.contains(x) by {
            let j = choose|j: int| 0 <= j < work.len() && work[j] == x;
            assert(next[j] == x);
            assert(next.contains(x));
        }
        assert forall|x: ItemId| ids.contains(x) && p.spec_defines(x) implies whole.contains(
            x,
        ) by {
            let j = choose|j: int| 0 <= j < ids.len() && ids[j] == x;
            if j == 0 {
                if work.contains(head) {
                    assert(next.contains(x));
                } else {
                    assert(next[work.len() as int] == x);
                    assert(next.contains(x));
                }
            } else {
                assert(ids.drop_first()[j - 1] == x);
                assert(ids.drop_first().contains(x));
            }
        }
        assert forall|k: int| work.len() <= k < whole.len() implies ids.contains(
            #[trigger] whole[k],
        ) by {
            if k < next.len() {
                lemma_enqueue_prefix(p, next, ids.drop_first(), next.len() as int);
                assert(whole.take(next.len() as int) =~= next.take(next.len() as int));
                assert(next.take(next.len() as int) =~= next);
                assert(whole.take(next.len() as int)[k] == whole[k]);
                assert(whole[k] == next[k]);
                assert(next[k] == head);
                assert(ids[0] == head);
                assert(ids.contains(head));
            } else {
                assert(ids.drop_first().contains(whole[k]));
                let j = choose|j: int|
                    0 <= j < ids.drop_first().len() && ids.drop_first()[j] == whole[k];
                assert(ids[j + 1] == whole[k]);
            }
        }
    }
}

/// The drain preserves well-formedness all the way down: the final order is
/// duplicate-free, fully defined, closed under defined callees, and fully
/// generated from its head.
#[verifier::rlimit(60)]
proof fn lemma_drain_props(p: Program, work: Seq<ItemId>, i: int)
    requires
        drain_wf(p, work, i),
    ensures
        emitted_once(drain(p, work, i)),
        forall|k: int|
            0 <= k < drain(p, work, i).len() ==> p.spec_defines(#[trigger] drain(p, work, i)[k]),
        order_closed(p, drain(p, work, i)),
        order_generated(p, drain(p, work, i)),
    decreases crate::compiler::count_unemitted(p.spec_ids(), work.take(i)), work.len() - i,
{
    let o = drain(p, work, i);
    if i >= work.len() {
        assert(o == work);
    } else {
        let cur = work[i];
        assert(p.spec_defines(cur));
        assert(!work.take(i).contains(cur)) by {
            if work.take(i).contains(cur) {
                let j = choose|j: int| 0 <= j < i && work.take(i)[j] == cur;
                assert(work[j] == work[i]);
            }
        }
        let callees = spec_callees(p.spec_body_of(cur).basic_blocks@);
        let next = spec_enqueue(p, work, callees);
        assert(o == drain(p, next, i + 1));
        lemma_enqueue_prefix(p, work, callees, work.len() as int);
        lemma_enqueue_wf(p, work, callees);
        lemma_enqueue_covers(p, work, callees);
        assert(work.take(work.len() as int) =~= work);
        assert(next.take(work.len() as int) =~= work);
        assert forall|k: int| 0 <= k < work.len() implies next[k] == work[k] by {
            assert(next.take(work.len() as int)[k] == work[k]);
        }
        // Well-formedness of the advanced state.
        assert(drain_wf(p, next, i + 1)) by {
            assert forall|k: int, j: int|
                0 <= k < i + 1 && 0 <= j < spec_callees(
                    p.spec_body_of(next[k]).basic_blocks@,
                ).len() && p.spec_defines(
                    #[trigger] spec_callees(p.spec_body_of(next[k]).basic_blocks@)[j],
                ) implies next.contains(
                spec_callees(p.spec_body_of(next[k]).basic_blocks@)[j],
            ) by {
                assert(next[k] == work[k]);
                let target = spec_callees(p.spec_body_of(next[k]).basic_blocks@)[j];
                if k < i {
                    assert(work.contains(target));
                } else {
                    assert(next[k] == cur);
                    assert(spec_callees(p.spec_body_of(next[k]).basic_blocks@) == callees);
                    assert(callees.contains(target));
                }
            }
            assert forall|k: int| 1 <= k < next.len() implies exists|j: int|
                0 <= j < k && spec_callees(p.spec_body_of(next[j]).basic_blocks@).contains(
                    #[trigger] next[k],
                ) by {
                if k < work.len() {
                    assert(next[k] == work[k]);
                    let j = choose|j: int|
                        0 <= j < k && spec_callees(p.spec_body_of(work[j]).basic_blocks@).contains(
                            work[k],
                        );
                    assert(next[j] == work[j]);
                    assert(spec_callees(p.spec_body_of(next[j]).basic_blocks@).contains(next[k]));
                } else {
                    assert(callees.contains(next[k]));
                    assert(next[i] == cur);
                    assert(spec_callees(p.spec_body_of(next[i]).basic_blocks@).contains(next[k]));
                }
            }
        }
        assert(work.take(i + 1) =~= work.take(i).push(cur));
        lemma_enqueue_prefix(p, work, callees, i + 1);
        assert(next.take(i + 1) =~= work.take(i + 1));
        lemma_count_push_lt(p.spec_ids(), work.take(i), cur);
        lemma_drain_props(p, next, i + 1);
    }
}

/// Single emission: for any program and entry — recursive and mutually
/// recursive call graphs included — the emission order lists the entry
/// first, lists every identifier at most once, and is exactly the transitive
/// closure of defined callees reachable from the entry: it is closed under
/// callees, and nothing in it but the entry lacks an earlier caller.
pub proof fn lemma_single_emission(p: Program, entry: ItemId)
    requires
        p.spec_defines(entry),
    ensures
        spec_order(p, entry).len() >= 1,
        spec_order(p, entry)[0] == entry,
        emitted_once(spec_order(p, entry)),
        forall|k: int|
            0 <= k < spec_order(p, entry).len() ==> p.spec_defines(
                #[trigger] spec_order(p, entry)[k],
            ),
        order_closed(p, spec_order(p, entry)),
        order_generated(p, spec_order(p, entry)),
{
    let start = seq![entry];
    assert(drain_wf(p, start, 0)) by {
        assert(start[0] == entry);
    }
    lemma_drain_props(p, start, 0);
    lemma_drain_extends(p, start, 0);
    assert(spec_order(p, entry).take(1)[0] == start[0]);
}


/// A decimal numeral is never empty, and has a single digit exactly for
/// values below ten.
pub proof fn lemma_dec_len(n: nat)
    ensures
        spec_dec(n).len() >= 1,
        (spec_dec(n).len() == 1) <==> (n < 10),
    decreases n,
{
    if n >= 10 {
        lemma_dec_len(n / 10);
    }
}

/// Distinct numbers have distinct decimal numerals: labels derived from
/// distinct block indices can never collide.
pub proof fn lemma_dec_injective(m: nat, n: nat)
    requires
        spec_dec(m) == spec_dec(n),
    ensures
        m == n,
    decreases m,
{
    lemma_dec_len(m);
    lemma_dec_len(n);
    if m < 10 && n < 10 {
        assert(spec_dec(m)[0] == spec_dec_digit(m));
        assert(spec_dec(n)[0] == spec_dec_digit(n));
    } else if m >= 10 && n >= 10 {
        let a = spec_dec(m / 10);
        let b = spec_dec(n / 10);
        assert(spec_dec(m) == a + seq![spec_dec_digit(m % 10)]);
        assert(spec_dec(n) == b + seq![spec_dec_digit(n % 10)]);
        assert(spec_dec(m).last() == spec_dec_digit(m % 10));
        assert(spec_dec(n).last() == spec_dec_digit(n % 10));
        assert(m % 10 == n % 10);
        assert(spec_dec(m).drop_last() =~= a);
        assert(spec_dec(n).drop_last() =~= b);
        lemma_dec_injective(m / 10, n / 10);
    }
}

/// The cases of a function's dispatch switch, one fragment per basic block:
/// the decomposition that the label-coverage law speaks of.
pub open spec fn spec_case_list(blocks: Seq<BasicBlockData>) -> Seq<Seq<char>> {
    Seq::new(blocks.len(), |b: int| spec_case_entry(b as nat, blocks[b]))
}

proof fn lemma_cases_flatten_alt(blocks: Seq<BasicBlockData>)
    ensures
        spec_cases(blocks) == spec_case_list(blocks).flatten_alt(),
    decreases blocks.len(),
{
    if blocks.len() == 0 {
        assert(spec_case_list(blocks) =~= Seq::<Seq<char>>::empty());
    } else {
        lemma_cases_flatten_alt(blocks.drop_last());
        assert(spec_case_list(blocks).drop_last() =~= spec_case_list(blocks.drop_last()));
        assert(spec_case_list(blocks).last() == spec_case_entry(
            (blocks.len() - 1) as nat,
            blocks.last(),
        ));
    }
}

/// Label coverage: the cases of a function's dispatch switch decompose into
/// exactly one fragment per basic block, in declaration order; the fragment
/// of block `b` is labeled by `b`'s own decimal numeral; labels of distinct
/// blocks never collide; and the dispatch variable's initial value is the
/// entry block's index, block 0.
pub proof fn lemma_label_coverage(blocks: Seq<BasicBlockData>)
    ensures
        spec_case_list(blocks).len() == blocks.len(),
        spec_cases(blocks) == spec_case_list(blocks).flatten(),
        forall|b: int|
            0 <= b < blocks.len() ==> #[trigger] spec_case_list(blocks)[b] == "case "@ + spec_dec(
                b as nat,
            ) + ":"@ + spec_bb_text(blocks[b]) + "break;"@,
        forall|b1: int, b2: int|
            0 <= b1 < b2 < blocks.len() ==> #[trigger] spec_dec(b1 as nat) != #[trigger] spec_dec(
                b2 as nat,
            ),
        spec_entry_label() == 0,
{
    lemma_cases_flatten_alt(blocks);
    spec_case_list(blocks).lemma_flatten_and_flatten_alt_are_equivalent();
    assert forall|b1: int, b2: int|
        0 <= b1 < b2 < blocks.len() implies #[trigger] spec_dec(b1 as nat) != #[trigger] spec_dec(
        b2 as nat,
    ) by {
        if spec_dec(b1 as nat) == spec_dec(b2 as nat) {
            lemma_dec_injective(b1 as nat, b2 as nat);
        }
    }
}


/// A hexadecimal numeral is never empty, and has a single digit exactly for
/// values below sixteen.
pub proof fn lemma_hex_len(n: nat)
    ensures
        spec_hex(n).len() >= 1,
        (spec_hex(n).len() == 1) <==> (n < 16),
    decreases n,
{
    if n >= 16 {
        lemma_hex_len(n / 16);
    }
}

/// Distinct numbers have distinct hexadecimal numerals.
pub proof fn lemma_hex_injective(m: nat, n: nat)
    requires
        spec_hex(m) == spec_hex(n),
    ensures
        m == n,
    decreases m,
{
    lemma_hex_len(m);
    lemma_hex_len(n);
    if m < 16 && n < 16 {
        assert(spec_hex(m)[0] == spec_hex_digit(m));
        assert(spec_hex(n)[0] == spec_hex_digit(n));
    } else if m >= 16 && n >= 16 {
        let a = spec_hex(m / 16);
        let b = spec_hex(n / 16);
        assert(spec_hex(m) == a + seq![spec_hex_digit(m % 16)]);
        assert(spec_hex(n) == b + seq![spec_hex_digit(n % 16)]);
        assert(spec_hex(m).last() == spec_hex_digit(m % 16));
        assert(spec_hex(n).last() == spec_hex_digit(n % 16));
        assert(m % 16 == n % 16);
        assert(spec_hex(m).drop_last() =~= a);
        assert(spec_hex(n).drop_last() =~= b);
        lemma_hex_injective(m / 16, n / 16);
    }
}

/// No character of a hexadecimal numeral is an underscore: the separator of
/// an item name can never be mistaken for part of its parts.
pub proof fn lemma_hex_no_underscore(n: nat)
    ensures
        forall|k: int| 0 <= k < spec_hex(n).len() ==> spec_hex(n)[k] != '_',
    decreases n,
{
    if n >= 16 {
        lemma_hex_no_underscore(n / 16);
        let a = spec_hex(n / 16);
        assert forall|k: int| 0 <= k < spec_hex(n).len() implies spec_hex(n)[k] != '_' by {
            if k < a.len() {
                assert(spec_hex(n)[k] == a[k]);
            } else {
                assert(spec_hex(n)[k] == spec_hex_digit(n % 16));
            }
        }
    }
}

/// Distinct items never collide in the output: the derived name determines
/// the two-part identifier. Together with single emission this means each
/// emitted definition binds its own name.
pub proof fn lemma_item_name_injective(id1: ItemId, id2: ItemId)
    requires
        spec_item_name(id1) == spec_item_name(id2),
    ensures
        id1 == id2,
{
    reveal_strlit("d");
    reveal_strlit("_");
    let a1 = spec_hex(id1.index as nat);
    let b1 = spec_hex(id1.krate as nat);
    let a2 = spec_hex(id2.index as nat);
    let b2 = spec_hex(id2.krate as nat);
    let s1 = spec_item_name(id1);
    let s2 = spec_item_name(id2);
    lemma_hex_len(id1.index as nat);
    lemma_hex_len(id1.krate as nat);
    lemma_hex_len(id2.index as nat);
    lemma_hex_len(id2.krate as nat);
    lemma_hex_no_underscore(id1.index as nat);
    lemma_hex_no_underscore(id2.index as nat);
    assert(s1.len() == 2 + a1.len() + b1.len());
    assert(s2.len() == 2 + a2.len() + b2.len());
    if a1.len() < a2.len() {
        let p = 1 + a1.len() as int;
        assert(s1[p] == '_');
        assert(s2[p] == a2[p - 1]);
        assert(false);
    } else if a2.len() < a1.len() {
        let p = 1 + a2.len() as int;
        assert(s2[p] == '_');
        assert(s1[p] == a1[p - 1]);
        assert(false);
    } else {
        assert(a1 =~= a2) by {
            assert forall|k: int| 0 <= k < a1.len() implies a1[k] == a2[k] by {
                assert(s1[1 + k] == a1[k]);
                assert(s2[1 + k] == a2[k]);
            }
        }
        assert(b1 =~= b2) by {
            assert forall|k: int| 0 <= k < b1.len() implies b1[k] == b2[k] by {
                assert(s1[2 + a1.len() + k] == b1[k]);
                assert(s2[2 + a2.len() + k] == b2[k]);
            }
        }
        lemma_hex_injective(id1.index as nat, id2.index as nat);
        lemma_hex_injective(id1.krate as nat, id2.krate as nat);
    }
}

} // verus!
