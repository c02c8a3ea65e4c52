use vstd::prelude::*;

use crate::number::{int_of_text, int_text, int_to_text, parse_int, parse_position, position_of_text};
use crate::op::{
    ByteCode, Cell, Instr, Op, ProgramError, Value, decode_program, is_op_name, line_operand,
    line_token, op_name, text_of,
};

verus! {

/// The state of a run: the stack, the program counter and the last instruction's outcome.
pub struct VmState {
    pub stack: Seq<Cell>,
    pub pc: int,
    pub last: Result<Cell, ProgramError>,
}

pub open spec fn cells(s: Seq<Value>) -> Seq<Cell> {
    s.map_values(|v: Value| v@)
}

pub open spec fn instrs(s: Seq<ByteCode>) -> Seq<Instr> {
    s.map_values(|b: ByteCode| b@)
}

pub open spec fn outcome(r: Result<Value, ProgramError>) -> Result<Cell, ProgramError> {
    match r {
        Ok(v) => Ok(v@),
        Err(e) => Err(e),
    }
}

/// The outcome of an instruction that produces no value of its own.
pub open spec fn no_value() -> Result<Cell, ProgramError> {
    Ok(Cell { binding: None, payload: None })
}

pub open spec fn bound_at(st: Seq<Cell>, name: Seq<char>, i: int) -> bool {
    0 <= i < st.len() && st[i].binding == Some(name)
}

pub open spec fn first_bound_at(st: Seq<Cell>, name: Seq<char>, i: int) -> bool {
    bound_at(st, name, i) && forall|j: int| 0 <= j < i ==> !bound_at(st, name, j)
}

/// The lowest stack position whose cell is bound to `name`, if any.
pub open spec fn lookup(st: Seq<Cell>, name: Seq<char>) -> Option<int> {
    if exists|i: int| first_bound_at(st, name, i) {
        Some(choose|i: int| first_bound_at(st, name, i))
    } else {
        None
    }
}

pub open spec fn payload_int(c: Cell) -> Option<int> {
    match c.payload {
        Some(t) => int_of_text(t),
        None => None,
    }
}

pub open spec fn operand_position(o: Option<Seq<char>>) -> Option<int> {
    match o {
        Some(t) => position_of_text(t),
        None => None,
    }
}

pub open spec fn abs(a: int) -> int {
    if a < 0 { -a } else { a }
}

/// Division that truncates toward zero.
pub open spec fn trunc_div(a: int, b: int) -> int {
    if (a < 0) != (b < 0) { -(abs(a) / abs(b)) } else { abs(a) / abs(b) }
}

/// `left op right` for an arithmetic opcode, when it is defined and fits in 32 bits.
pub open spec fn arith(op: Op, left: int, right: int) -> Option<int> {
    let v = match op {
        Op::Add => Some(left + right),
        Op::Subtract => Some(left - right),
        Op::Multiply => Some(left * right),
        _ => if right == 0 { None } else { Some(trunc_div(left, right)) },
    };
    match v {
        Some(n) => if i32::MIN <= n <= i32::MAX { Some(n) } else { None },
        None => None,
    }
}

/// `left op right` for a comparison opcode.
pub open spec fn compare(op: Op, left: int, right: int) -> bool {
    match op {
        Op::IfCmpEq => left == right,
        Op::IfCmpNe => left != right,
        Op::IfCmpGe => left >= right,
        Op::IfCmpGt => left > right,
        Op::IfCmpLe => left <= right,
        _ => left < right,
    }
}

pub open spec fn is_arith(op: Op) -> bool {
    op == Op::Add || op == Op::Subtract || op == Op::Multiply || op == Op::Divide
}

pub open spec fn is_compare(op: Op) -> bool {
    op == Op::IfCmpEq || op == Op::IfCmpNe || op == Op::IfCmpGe || op == Op::IfCmpGt
        || op == Op::IfCmpLe || op == Op::IfCmpLt
}

/// Stack and outcome after `WRITE_VAR`.
pub open spec fn write_var_effect(st: Seq<Cell>, operand: Option<Seq<char>>) -> (Seq<Cell>, Result<Cell, ProgramError>) {
    match operand {
        None => (st, Err(ProgramError::MissingOperand)),
        Some(name) => if st.len() == 0 {
            (st, Err(ProgramError::StackUnderflow))
        } else {
            let rest = st.drop_last();
            let cell = Cell { binding: Some(name), payload: st.last().payload };
            match lookup(rest, name) {
                Some(k) => (rest.update(k, cell), no_value()),
                None => (rest.push(cell), no_value()),
            }
        },
    }
}

/// Stack and outcome after `READ_VAR`.
pub open spec fn read_var_effect(st: Seq<Cell>, operand: Option<Seq<char>>) -> (Seq<Cell>, Result<Cell, ProgramError>) {
    match operand {
        None => (st, Err(ProgramError::MissingOperand)),
        Some(name) => match lookup(st, name) {
            Some(k) => (st.push(st[k]), no_value()),
            None => (st, Err(ProgramError::UndefinedVariable)),
        },
    }
}

/// Stack and outcome after `RETURN_VALUE`.
pub open spec fn return_effect(st: Seq<Cell>) -> (Seq<Cell>, Result<Cell, ProgramError>) {
    if st.len() == 0 {
        (st, Err(ProgramError::StackUnderflow))
    } else {
        (st.drop_last(), Ok(st.last()))
    }
}

/// Stack and outcome after an arithmetic instruction: the second cell popped is the left
/// operand, the first the right one.
pub open spec fn arith_effect(op: Op, st: Seq<Cell>) -> (Seq<Cell>, Result<Cell, ProgramError>) {
    if st.len() < 2 {
        (Seq::empty(), Err(ProgramError::StackUnderflow))
    } else {
        let rest = st.take(st.len() - 2);
        match (payload_int(st[st.len() - 2]), payload_int(st.last())) {
            (Some(l), Some(r)) => match arith(op, l, r) {
                Some(v) => (rest.push(Cell { binding: None, payload: Some(int_text(v)) }), no_value()),
                None => (rest, Err(ProgramError::ArithmeticError)),
            },
            _ => (rest, Err(ProgramError::NumericParseError)),
        }
    }
}

/// Stack, next program counter and outcome after a comparison jump; `pc` has already
/// moved past the instruction.
pub open spec fn compare_effect(op: Op, st: Seq<Cell>, operand: Option<Seq<char>>, pc: int) -> (Seq<Cell>, int, Result<Cell, ProgramError>) {
    if st.len() < 2 {
        (Seq::empty(), pc, Err(ProgramError::StackUnderflow))
    } else {
        let rest = st.take(st.len() - 2);
        match (payload_int(st[st.len() - 2]), payload_int(st.last())) {
            (Some(l), Some(r)) => if compare(op, l, r) {
                match operand_position(operand) {
                    Some(t) => (rest, t, no_value()),
                    None => (rest, pc, Err(ProgramError::NumericParseError)),
                }
            } else {
                (rest, pc, no_value())
            },
            _ => (rest, pc, Err(ProgramError::NumericParseError)),
        }
    }
}

/// One step: execute the instruction at `s.pc`, with the counter advanced first.
pub open spec fn step(code: Seq<Instr>, s: VmState) -> VmState {
    let ins = code[s.pc];
    let pc = s.pc + 1;
    let st = s.stack;
    if ins.op == Op::LoadVal {
        VmState { stack: st.push(Cell { binding: None, payload: ins.operand }), pc, last: no_value() }
    } else if ins.op == Op::WriteVar {
        let e = write_var_effect(st, ins.operand);
        VmState { stack: e.0, pc, last: e.1 }
    } else if ins.op == Op::ReadVar {
        let e = read_var_effect(st, ins.operand);
        VmState { stack: e.0, pc, last: e.1 }
    } else if ins.op == Op::ReturnValue {
        let e = return_effect(st);
        VmState { stack: e.0, pc, last: e.1 }
    } else if is_arith(ins.op) {
        let e = arith_effect(ins.op, st);
        VmState { stack: e.0, pc, last: e.1 }
    } else if ins.op == Op::Goto {
        match operand_position(ins.operand) {
            Some(t) => VmState { stack: st, pc: t, last: no_value() },
            None => VmState { stack: st, pc, last: Err(ProgramError::NumericParseError) },
        }
    } else {
        let e = compare_effect(ins.op, st, ins.operand, pc);
        VmState { stack: e.0, pc: e.1, last: e.2 }
    }
}

pub open spec fn halted(code: Seq<Instr>, s: VmState) -> bool {
    !(0 <= s.pc < code.len())
}

/// The state in which a run ends, if it ends within `fuel` steps.
pub open spec fn run(code: Seq<Instr>, s: VmState, fuel: nat) -> Option<VmState>
    decreases fuel,
{
    if halted(code, s) {
        Some(s)
    } else if fuel == 0 {
        None
    } else {
        run(code, step(code, s), (fuel - 1) as nat)
    }
}

/// The state in which every run starts.
pub open spec fn start(stack: Seq<Cell>) -> VmState {
    VmState { stack, pc: 0, last: no_value() }
}


fn copy_text(o: &Option<String>) -> (r: Option<String>)
    ensures
        text_of(r) == text_of(*o),
{
    match o {
        Some(t) => Some(t.clone()),
        None => None,
    }
}

fn empty_value() -> (r: Value)
    ensures
        Ok::<Cell, ProgramError>(r@) == no_value(),
{
    Value { variable: None, value: None }
}

/// Finds the lowest stack position bound to `name`.
fn find_binding(stack: &Vec<Value>, name: &String) -> (r: Option<usize>)
    ensures
        match r {
            Some(k) => lookup(cells(stack@), name@) == Some(k as int),
            None => lookup(cells(stack@), name@) is None,
        },
{
    let ghost st = cells(stack@);
    let mut i: usize = 0;
    while i < stack.len()
        invariant
            i <= stack.len(),
            st == cells(stack@),
            forall|j: int| 0 <= j < i ==> !bound_at(st, name@, j),
        decreases stack.len() - i,
    {
        assert(st[i as int] == stack@[i as int]@);
        let hit = match &stack[i].variable {
            Some(v) => v.eq(name),
            None => false,
        };
        if hit {
            proof {
                assert(first_bound_at(st, name@, i as int));
                let w = choose|w: int| first_bound_at(st, name@, w);
                if w < i {
                    assert(!bound_at(st, name@, w));
                } else if w > i {
                    assert(!bound_at(st, name@, i as int));
                }
            }
            return Some(i);
        }
        i = i + 1;
    }
    None
}

fn write_var(stack: &mut Vec<Value>, operand: &Option<String>) -> (r: Result<Value, ProgramError>)
    ensures
        (cells(final(stack)@), outcome(r)) == write_var_effect(cells(old(stack)@), text_of(*operand)),
{
    let name = match operand {
        Some(n) => n,
        None => {
            return Err(ProgramError::MissingOperand);
        },
    };
    let top = match stack.pop() {
        Some(t) => t,
        None => {
            return Err(ProgramError::StackUnderflow);
        },
    };
    proof {
        assert(cells(stack@) =~= cells(old(stack)@).drop_last());
    }
    let cell = Value { variable: Some(name.clone()), value: top.value };
    match find_binding(stack, name) {
        Some(k) => {
            let ghost before = stack@;
            stack.set(k, cell);
            proof {
                assert(cells(stack@) =~= cells(before).update(k as int, cell@));
            }
        },
        None => {
            let ghost before = stack@;
            stack.push(cell);
            proof {
                assert(cells(stack@) =~= cells(before).push(cell@));
            }
        },
    }
    Ok(empty_value())
}

fn read_var(stack: &mut Vec<Value>, operand: &Option<String>) -> (r: Result<Value, ProgramError>)
    ensures
        (cells(final(stack)@), outcome(r)) == read_var_effect(cells(old(stack)@), text_of(*operand)),
{
    let name = match operand {
        Some(n) => n,
        None => {
            return Err(ProgramError::MissingOperand);
        },
    };
    match find_binding(stack, name) {
        Some(k) => {
            let cell = Value { variable: copy_text(&stack[k].variable), value: copy_text(&stack[k].value) };
            let ghost before = stack@;
            stack.push(cell);
            proof {
                assert(cells(stack@) =~= cells(before).push(cells(before)[k as int]));
            }
            Ok(empty_value())
        },
        None => Err(ProgramError::UndefinedVariable),
    }
}

fn return_value(stack: &mut Vec<Value>) -> (r: Result<Value, ProgramError>)
    ensures
        (cells(final(stack)@), outcome(r)) == return_effect(cells(old(stack)@)),
{
    match stack.pop() {
        Some(v) => {
            proof {
                assert(cells(stack@) =~= cells(old(stack)@).drop_last());
            }
            Ok(v)
        },
        None => Err(ProgramError::StackUnderflow),
    }
}

fn value_int(v: &Value) -> (r: Option<i32>)
    ensures
        match r {
            Some(x) => payload_int(v@) == Some(x as int),
            None => payload_int(v@) is None,
        },
{
    match &v.value {
        Some(t) => parse_int(t.as_str()),
        None => None,
    }
}

/// Pops the right operand, then the left one.
fn pop_operands(stack: &mut Vec<Value>) -> (r: Option<(Value, Value)>)
    ensures
        ({
            let st = cells(old(stack)@);
            match r {
                Some(p) => st.len() >= 2 && p.0@ == st[st.len() - 2] && p.1@ == st.last()
                    && cells(final(stack)@) == st.take(st.len() - 2),
                None => st.len() < 2 && cells(final(stack)@) == Seq::<Cell>::empty(),
            }
        }),
{
    let right = match stack.pop() {
        Some(v) => v,
        None => {
            return None;
        },
    };
    let left = match stack.pop() {
        Some(v) => v,
        None => {
            proof {
                assert(cells(stack@) =~= Seq::<Cell>::empty());
            }
            return None;
        },
    };
    proof {
        assert(cells(stack@) =~= cells(old(stack)@).take(old(stack)@.len() - 2));
    }
    Some((left, right))
}

fn magnitude(a: i32) -> (r: u64)
    ensures
        r as int == abs(a as int),
{
    if a < 0 { (0 - (a as i64)) as u64 } else { a as u64 }
}

/// Applies an arithmetic opcode, reporting division by zero and overflow.
fn apply_arith(op: Op, left: i32, right: i32) -> (r: Option<i32>)
    requires
        is_arith(op),
    ensures
        match r {
            Some(v) => arith(op, left as int, right as int) == Some(v as int),
            None => arith(op, left as int, right as int) is None,
        },
{
    let l = left as i64;
    let r = right as i64;
    let v: i64 = if op == Op::Add {
        l + r
    } else if op == Op::Subtract {
        l - r
    } else if op == Op::Multiply {
        proof {
            assert(-2147483648 * 2147483648 <= l * r <= 2147483648 * 2147483648) by (nonlinear_arith)
                requires
                    -2147483648 <= l <= 2147483647,
                    -2147483648 <= r <= 2147483647,
            ;
        }
        l * r
    } else {
        if right == 0 {
            return None;
        }
        let q = magnitude(left) / magnitude(right);
        if (left < 0) != (right < 0) {
            0 - (q as i64)
        } else {
            q as i64
        }
    };
    if v < i32::MIN as i64 || v > i32::MAX as i64 {
        None
    } else {
        Some(v as i32)
    }
}

fn arith_step(op: Op, stack: &mut Vec<Value>) -> (r: Result<Value, ProgramError>)
    requires
        is_arith(op),
    ensures
        (cells(final(stack)@), outcome(r)) == arith_effect(op, cells(old(stack)@)),
{
    let (left, right) = match pop_operands(stack) {
        Some(p) => p,
        None => {
            return Err(ProgramError::StackUnderflow);
        },
    };
    let (l, r) = match (value_int(&left), value_int(&right)) {
        (Some(l), Some(r)) => (l, r),
        _ => {
            return Err(ProgramError::NumericParseError);
        },
    };
    match apply_arith(op, l, r) {
        Some(v) => {
            let cell = Value { variable: None, value: Some(int_to_text(v)) };
            let ghost before = stack@;
            stack.push(cell);
            proof {
                assert(cells(stack@) =~= cells(before).push(cell@));
            }
            Ok(empty_value())
        },
        None => Err(ProgramError::ArithmeticError),
    }
}

fn operand_target(operand: &Option<String>) -> (r: Option<usize>)
    ensures
        match r {
            Some(t) => operand_position(text_of(*operand)) == Some(t as int),
            None => operand_position(text_of(*operand)) is None,
        },
{
    match operand {
        Some(t) => parse_position(t.as_str()),
        None => None,
    }
}

fn compare_step(op: Op, stack: &mut Vec<Value>, operand: &Option<String>, pc: usize) -> (r: (usize, Result<Value, ProgramError>))
    requires
        is_compare(op),
    ensures
        (cells(final(stack)@), r.0 as int, outcome(r.1)) == compare_effect(op, cells(old(stack)@), text_of(*operand), pc as int),
{
    let (left, right) = match pop_operands(stack) {
        Some(p) => p,
        None => {
            return (pc, Err(ProgramError::StackUnderflow));
        },
    };
    let (l, r) = match (value_int(&left), value_int(&right)) {
        (Some(l), Some(r)) => (l, r),
        _ => {
            return (pc, Err(ProgramError::NumericParseError));
        },
    };
    let taken = if op == Op::IfCmpEq {
        l == r
    } else if op == Op::IfCmpNe {
        l != r
    } else if op == Op::IfCmpGe {
        l >= r
    } else if op == Op::IfCmpGt {
        l > r
    } else if op == Op::IfCmpLe {
        l <= r
    } else {
        l < r
    };
    if taken {
        match operand_target(operand) {
            Some(t) => (t, Ok(empty_value())),
            None => (pc, Err(ProgramError::NumericParseError)),
        }
    } else {
        (pc, Ok(empty_value()))
    }
}

/// Executes the instruction at `pc`. Returns the next program counter and the
/// instruction's outcome.
pub fn execute_step(stack: &mut Vec<Value>, code: &Vec<ByteCode>, pc: usize) -> (r: (usize, Result<Value, ProgramError>))
    requires
        pc < code.len(),
    ensures
        ({
            let s = step(instrs(code@), VmState { stack: cells(old(stack)@), pc: pc as int, last: no_value() });
            cells(final(stack)@) == s.stack && r.0 as int == s.pc && outcome(r.1) == s.last
        }),
{
    let ins = &code[pc];
    let next = pc + 1;
    assert(instrs(code@)[pc as int] == ins@);
    match ins.op {
        Op::LoadVal => {
            let cell = Value { variable: None, value: copy_text(&ins.value) };
            let ghost before = stack@;
            stack.push(cell);
            proof {
                assert(cells(stack@) =~= cells(before).push(cell@));
            }
            (next, Ok(empty_value()))
        },
        Op::WriteVar => (next, write_var(stack, &ins.value)),
        Op::ReadVar => (next, read_var(stack, &ins.value)),
        Op::ReturnValue => (next, return_value(stack)),
        Op::Add | Op::Subtract | Op::Multiply | Op::Divide => (next, arith_step(ins.op, stack)),
        Op::Goto => match operand_target(&ins.value) {
            Some(t) => (t, Ok(empty_value())),
            None => (next, Err(ProgramError::NumericParseError)),
        },
        _ => compare_step(ins.op, stack, &ins.value, next),
    }
}

/// Runs `code` from position zero on `stack` for at most `limit` steps. Returns `None`
/// when the program has not halted by then; otherwise the outcome of the last
/// instruction executed, and leaves on `stack` what the run left there.
pub fn interpret_bounded(stack: &mut Vec<Value>, code: &Vec<ByteCode>, limit: u64) -> (r: Option<Result<Value, ProgramError>>)
    ensures
        match run(instrs(code@), start(cells(old(stack)@)), limit as nat) {
            Some(f) => r is Some && outcome(r->Some_0) == f.last && cells(final(stack)@) == f.stack,
            None => r is None,
        },
{
    let ghost init = start(cells(stack@));
    let mut last: Result<Value, ProgramError> = Ok(empty_value());
    let mut pc: usize = 0;
    let mut fuel: u64 = limit;
    while pc < code.len()
        invariant
            init == start(cells(old(stack)@)),
            run(instrs(code@), init, limit as nat) == run(
                instrs(code@),
                VmState { stack: cells(stack@), pc: pc as int, last: outcome(last) },
                fuel as nat,
            ),
        decreases fuel,
    {
        if fuel == 0 {
            proof {
                let cur = VmState { stack: cells(stack@), pc: pc as int, last: outcome(last) };
                assert(instrs(code@).len() == code@.len());
                assert(!halted(instrs(code@), cur));
                assert(run(instrs(code@), cur, 0) is None);
            }
            return None;
        }
        let (next, out) = execute_step(stack, code, pc);
        pc = next;
        last = out;
        fuel = fuel - 1;
    }
    Some(last)
}

/// Runs `code` from position zero on `stack` and returns the outcome of the last
/// instruction executed. An error does not stop the run: a later instruction's
/// outcome replaces it. Execution is bounded by `u64::MAX` steps, past which
/// `StepLimitExceeded` is returned.
pub fn interpret(stack: &mut Vec<Value>, bytecode_list: &Vec<ByteCode>) -> (r: Result<Value, ProgramError>)
    ensures
        match run(instrs(bytecode_list@), start(cells(old(stack)@)), u64::MAX as nat) {
            Some(f) => outcome(r) == f.last && cells(final(stack)@) == f.stack,
            None => r == Err::<Value, ProgramError>(ProgramError::StepLimitExceeded),
        },
{
    match interpret_bounded(stack, bytecode_list, u64::MAX) {
        Some(r) => r,
        None => Err(ProgramError::StepLimitExceeded),
    }
}


/// Whether `code` is what the lines of program text decode to, line by line.
pub open spec fn decodes_to(lines: Seq<String>, code: Seq<Instr>) -> bool {
    &&& code.len() == lines.len()
    &&& forall|i: int| 0 <= i < lines.len() ==> {
        &&& op_name(#[trigger] code[i].op) == line_token(lines[i]@)
        &&& code[i].operand == line_operand(lines[i]@)
    }
}

/// Decodes the program text, one instruction per line, and runs it on `stack`. A line
/// with an unknown opcode fails the whole program before any instruction executes.
pub fn interpret_program(stack: &mut Vec<Value>, lines: &Vec<String>) -> (r: Result<Value, ProgramError>)
    ensures
        (exists|i: int| 0 <= i < lines.len() && !is_op_name(line_token(#[trigger] lines@[i]@))) ==> {
            &&& r is Err && r->Err_0 is DecodeError
            &&& final(stack)@ == old(stack)@
        },
        (forall|i: int| 0 <= i < lines.len() ==> is_op_name(line_token(#[trigger] lines@[i]@))) ==> exists|code: Seq<Instr>| {
            &&& decodes_to(lines@, code)
            &&& match run(code, start(cells(old(stack)@)), u64::MAX as nat) {
                Some(f) => outcome(r) == f.last && cells(final(stack)@) == f.stack,
                None => r == Err::<Value, ProgramError>(ProgramError::StepLimitExceeded),
            }
        },
{
    match decode_program(lines) {
        Ok(code) => {
            proof {
                assert forall|i: int| 0 <= i < lines.len() implies is_op_name(line_token(#[trigger] lines@[i]@)) by {
                    assert(op_name(code@[i].op) == line_token(lines@[i]@));
                }
                assert(decodes_to(lines@, instrs(code@)));
            }
            interpret(stack, &code)
        },
        Err(e) => {
            proof {
                let i = choose|i: int| 0 <= i < lines.len() && !is_op_name(line_token(#[trigger] lines@[i]@))
                    && e is DecodeError;
                if forall|i: int| 0 <= i < lines.len() ==> is_op_name(line_token(#[trigger] lines@[i]@)) {
                    assert(is_op_name(line_token(lines@[i]@)));
                }
            }
            Err(e)
        },
    }
}

} // verus!
