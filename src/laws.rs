use vstd::prelude::*;

use crate::machine::{
    VmState, arith_effect, bound_at, first_bound_at, halted, is_arith, is_compare, lookup,
    no_value, payload_int, run, start, step,
};
use crate::number::int_of_text;
use crate::op::{Cell, Instr, Op, ProgramError};

verus! {

/// Whether exactly one cell of `st` is bound to `name`.
pub open spec fn bound_once(st: Seq<Cell>, name: Seq<char>) -> bool {
    exists|i: int| #[trigger] bound_at(st, name, i)
        && forall|j: int| #[trigger] bound_at(st, name, j) ==> j == i
}

/// Whether at most one cell of `st` is bound to `name`.
pub open spec fn bound_at_most_once(st: Seq<Cell>, name: Seq<char>) -> bool {
    forall|i: int, j: int| #[trigger] bound_at(st, name, i) && #[trigger] bound_at(st, name, j) ==> i == j
}

proof fn lemma_lookup_is_first(st: Seq<Cell>, name: Seq<char>, k: int)
    requires
        first_bound_at(st, name, k),
    ensures
        lookup(st, name) == Some(k),
{
    let w = choose|w: int| first_bound_at(st, name, w);
    if w < k {
        assert(!bound_at(st, name, w));
    } else if w > k {
        assert(!bound_at(st, name, k));
    }
}

proof fn lemma_first_exists(st: Seq<Cell>, name: Seq<char>, i: int)
    requires
        bound_at(st, name, i),
    ensures
        exists|j: int| first_bound_at(st, name, j),
    decreases i,
{
    if exists|j: int| 0 <= j < i && bound_at(st, name, j) {
        let j = choose|j: int| 0 <= j < i && bound_at(st, name, j);
        lemma_first_exists(st, name, j);
    } else {
        assert(first_bound_at(st, name, i));
    }
}

proof fn lemma_lookup_none(st: Seq<Cell>, name: Seq<char>)
    requires
        lookup(st, name) is None,
    ensures
        forall|i: int| !bound_at(st, name, i),
{
    assert forall|i: int| !bound_at(st, name, i) by {
        if bound_at(st, name, i) {
            lemma_first_exists(st, name, i);
        }
    }
}

/// Where the name is bound, after writing `cell` into the slot that `WRITE_VAR` picks.
proof fn lemma_written_slot(st: Seq<Cell>, name: Seq<char>, cell: Cell)
    requires
        cell.binding == Some(name),
    ensures
        ({
            let st2 = match lookup(st, name) {
                Some(k) => st.update(k, cell),
                None => st.push(cell),
            };
            let k = match lookup(st, name) {
                Some(k) => k,
                None => st.len() as int,
            };
            &&& lookup(st2, name) == Some(k)
            &&& st2[k] == cell
            &&& st2.len() >= st.len()
            &&& forall|i: int| 0 <= i < st.len() && i != k ==> st2[i] == st[i]
        }),
{
    match lookup(st, name) {
        Some(k) => {
            assert(first_bound_at(st, name, k));
            let st2 = st.update(k, cell);
            assert forall|j: int| 0 <= j < k implies !bound_at(st2, name, j) by {
                assert(st2[j] == st[j]);
                assert(!bound_at(st, name, j));
            }
            lemma_lookup_is_first(st2, name, k);
        },
        None => {
            lemma_lookup_none(st, name);
            let st2 = st.push(cell);
            assert forall|j: int| 0 <= j < st.len() implies !bound_at(st2, name, j) by {
                assert(st2[j] == st[j]);
                assert(!bound_at(st, name, j));
            }
            lemma_lookup_is_first(st2, name, st.len() as int);
        },
    }
}

/// A program with no instructions halts at once, with an empty result and the stack
/// unchanged.
pub proof fn law_empty_program(stack: Seq<Cell>, fuel: nat)
    ensures
        run(Seq::empty(), start(stack), fuel) == Some(start(stack)),
        start(stack).last == no_value(),
{
}

/// `LOAD_VAL v` then `RETURN_VALUE` returns an anonymous cell holding `v`, on any stack.
pub proof fn law_load_then_return(stack: Seq<Cell>, v: Seq<char>, fuel: nat)
    requires
        fuel >= 2,
    ensures
        ({
            let code = seq![
                Instr { op: Op::LoadVal, operand: Some(v) },
                Instr { op: Op::ReturnValue, operand: None },
            ];
            run(code, start(stack), fuel) == Some(
                VmState { stack, pc: 2, last: Ok(Cell { binding: None, payload: Some(v) }) },
            )
        }),
{
    let code = seq![
        Instr { op: Op::LoadVal, operand: Some(v) },
        Instr { op: Op::ReturnValue, operand: None },
    ];
    let s1 = step(code, start(stack));
    let s2 = step(code, s1);
    assert(s1.stack.drop_last() =~= stack);
    assert(run(code, s2, (fuel - 2) as nat) == Some(s2));
    assert(run(code, s1, (fuel - 1) as nat) == run(code, s2, (fuel - 2) as nat));
}

/// Writing a variable and reading it back returns a cell bound to that name that holds
/// the written text, on any stack.
pub proof fn law_write_then_read(stack: Seq<Cell>, name: Seq<char>, v: Seq<char>, fuel: nat)
    requires
        fuel >= 4,
    ensures
        ({
            let code = seq![
                Instr { op: Op::LoadVal, operand: Some(v) },
                Instr { op: Op::WriteVar, operand: Some(name) },
                Instr { op: Op::ReadVar, operand: Some(name) },
                Instr { op: Op::ReturnValue, operand: None },
            ];
            &&& run(code, start(stack), fuel) is Some
            &&& run(code, start(stack), fuel)->Some_0.last == Ok::<Cell, ProgramError>(
                Cell { binding: Some(name), payload: Some(v) },
            )
        }),
{
    let code = seq![
        Instr { op: Op::LoadVal, operand: Some(v) },
        Instr { op: Op::WriteVar, operand: Some(name) },
        Instr { op: Op::ReadVar, operand: Some(name) },
        Instr { op: Op::ReturnValue, operand: None },
    ];
    let cell = Cell { binding: Some(name), payload: Some(v) };
    let s1 = step(code, start(stack));
    assert(s1.stack.drop_last() =~= stack);
    let s2 = step(code, s1);
    lemma_written_slot(stack, name, cell);
    let s3 = step(code, s2);
    let s4 = step(code, s3);
    assert(s4.last == Ok::<Cell, ProgramError>(cell));
    assert(run(code, s4, (fuel - 4) as nat) == Some(s4));
    assert(run(code, s3, (fuel - 3) as nat) == Some(s4));
    assert(run(code, s2, (fuel - 2) as nat) == Some(s4));
    assert(run(code, s1, (fuel - 1) as nat) == Some(s4));
}

/// `WRITE_VAR` on a name that at most one cell carries leaves exactly one cell carrying
/// it, which holds the written text: writes update in place and never duplicate.
pub proof fn law_write_keeps_one_binding(st: Seq<Cell>, name: Seq<char>, v: Seq<char>)
    requires
        bound_at_most_once(st, name),
    ensures
        ({
            let code = seq![
                Instr { op: Op::LoadVal, operand: Some(v) },
                Instr { op: Op::WriteVar, operand: Some(name) },
            ];
            let s2 = step(code, step(code, start(st)));
            &&& bound_once(s2.stack, name)
            &&& lookup(s2.stack, name) is Some
            &&& s2.stack[lookup(s2.stack, name)->Some_0].payload == Some(v)
        }),
{
    let code = seq![
        Instr { op: Op::LoadVal, operand: Some(v) },
        Instr { op: Op::WriteVar, operand: Some(name) },
    ];
    let cell = Cell { binding: Some(name), payload: Some(v) };
    let s1 = step(code, start(st));
    assert(s1.stack.drop_last() =~= st);
    let s2 = step(code, s1);
    lemma_written_slot(st, name, cell);
    let k = lookup(s2.stack, name)->Some_0;
    assert(bound_at(s2.stack, name, k));
    assert forall|j: int| #[trigger] bound_at(s2.stack, name, j) implies j == k by {
        match lookup(st, name) {
            Some(k0) => {
                if j != k {
                    assert(bound_at(st, name, j));
                    assert(bound_at(st, name, k0));
                }
            },
            None => {
                lemma_lookup_none(st, name);
                if j != k {
                    assert(bound_at(st, name, j));
                }
            },
        }
    }
}

/// Writing a name twice in a row, from a stack where no cell or one cell carries it,
/// leaves exactly one cell carrying it, holding the second text.
pub proof fn law_rewrite_in_place(st: Seq<Cell>, name: Seq<char>, a: Seq<char>, b: Seq<char>, fuel: nat)
    requires
        bound_at_most_once(st, name),
        fuel >= 4,
    ensures
        ({
            let code = seq![
                Instr { op: Op::LoadVal, operand: Some(a) },
                Instr { op: Op::WriteVar, operand: Some(name) },
                Instr { op: Op::LoadVal, operand: Some(b) },
                Instr { op: Op::WriteVar, operand: Some(name) },
            ];
            let f = run(code, start(st), fuel);
            &&& f is Some
            &&& bound_once(f->Some_0.stack, name)
            &&& f->Some_0.stack[lookup(f->Some_0.stack, name)->Some_0].payload == Some(b)
        }),
{
    let code = seq![
        Instr { op: Op::LoadVal, operand: Some(a) },
        Instr { op: Op::WriteVar, operand: Some(name) },
        Instr { op: Op::LoadVal, operand: Some(b) },
        Instr { op: Op::WriteVar, operand: Some(name) },
    ];
    let first = seq![
        Instr { op: Op::LoadVal, operand: Some(a) },
        Instr { op: Op::WriteVar, operand: Some(name) },
    ];
    let second = seq![
        Instr { op: Op::LoadVal, operand: Some(b) },
        Instr { op: Op::WriteVar, operand: Some(name) },
    ];
    law_write_keeps_one_binding(st, name, a);
    let s1 = step(code, start(st));
    let s2 = step(code, s1);
    assert(s1 == step(first, start(st)));
    assert(s2.stack == step(first, step(first, start(st))).stack);
    law_write_keeps_one_binding(s2.stack, name, b);
    let s3 = step(code, s2);
    let s4 = step(code, s3);
    assert(s3.stack == step(second, start(s2.stack)).stack);
    assert(s4.stack == step(second, step(second, start(s2.stack))).stack);
    assert(run(code, s4, (fuel - 4) as nat) == Some(s4));
    assert(run(code, s3, (fuel - 3) as nat) == Some(s4));
    assert(run(code, s2, (fuel - 2) as nat) == Some(s4));
    assert(run(code, s1, (fuel - 1) as nat) == Some(s4));
}

/// An instruction that pops, executed on an empty stack, has `StackUnderflow` as its
/// outcome.
pub proof fn law_pop_on_empty_stack(code: Seq<Instr>, s: VmState)
    requires
        !halted(code, s),
        s.stack.len() == 0,
        code[s.pc].op == Op::ReturnValue || is_arith(code[s.pc].op) || is_compare(code[s.pc].op)
            || (code[s.pc].op == Op::WriteVar && code[s.pc].operand is Some),
    ensures
        step(code, s).last == Err::<Cell, ProgramError>(ProgramError::StackUnderflow),
{
}

/// A program that ends with a `RETURN_VALUE` on an empty stack has `StackUnderflow` as
/// its result.
pub proof fn law_return_on_empty_stack(fuel: nat)
    requires
        fuel >= 1,
    ensures
        ({
            let code = seq![Instr { op: Op::ReturnValue, operand: None }];
            &&& run(code, start(Seq::empty()), fuel) is Some
            &&& run(code, start(Seq::empty()), fuel)->Some_0.last == Err::<Cell, ProgramError>(
                ProgramError::StackUnderflow,
            )
        }),
{
    let code = seq![Instr { op: Op::ReturnValue, operand: None }];
    let s1 = step(code, start(Seq::empty()));
    assert(run(code, s1, (fuel - 1) as nat) == Some(s1));
}

/// Dividing an integer by a zero integer fails with `ArithmeticError`, on any stack.
pub proof fn law_divide_by_zero(stack: Seq<Cell>, a: Seq<char>, b: Seq<char>, fuel: nat)
    requires
        int_of_text(a) is Some,
        int_of_text(b) == Some(0int),
        fuel >= 3,
    ensures
        ({
            let code = seq![
                Instr { op: Op::LoadVal, operand: Some(a) },
                Instr { op: Op::LoadVal, operand: Some(b) },
                Instr { op: Op::Divide, operand: None },
            ];
            &&& run(code, start(stack), fuel) is Some
            &&& run(code, start(stack), fuel)->Some_0.last == Err::<Cell, ProgramError>(
                ProgramError::ArithmeticError,
            )
        }),
{
    let code = seq![
        Instr { op: Op::LoadVal, operand: Some(a) },
        Instr { op: Op::LoadVal, operand: Some(b) },
        Instr { op: Op::Divide, operand: None },
    ];
    let s1 = step(code, start(stack));
    let s2 = step(code, s1);
    let s3 = step(code, s2);
    assert(s2.stack[s2.stack.len() - 2].payload == Some(a));
    assert(payload_int(s2.stack.last()) == Some(0int));
    assert(s3.last == arith_effect(Op::Divide, s2.stack).1);
    assert(run(code, s3, (fuel - 3) as nat) == Some(s3));
    assert(run(code, s2, (fuel - 2) as nat) == Some(s3));
    assert(run(code, s1, (fuel - 1) as nat) == Some(s3));
}

} // verus!
