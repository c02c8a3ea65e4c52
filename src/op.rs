use vstd::prelude::*;

verus! {

/// The closed set of instructions that the machine executes.
#[derive(Clone, Copy, Debug, PartialEq, Eq, Structural)]
pub enum Op {
    Add,
    Subtract,
    Multiply,
    Divide,
    LoadVal,
    WriteVar,
    ReadVar,
    ReturnValue,
    Goto,
    IfCmpEq,
    IfCmpGe,
    IfCmpGt,
    IfCmpLe,
    IfCmpLt,
    IfCmpNe,
}

/// One instruction: an opcode and the text of its optional operand.
#[derive(Clone, Debug)]
pub struct ByteCode {
    pub op: Op,
    pub value: Option<String>,
}

/// One stack cell: an anonymous operand (`variable` is `None`) or a named variable.
/// It is also the shape of a program's result.
#[derive(Clone, Debug, PartialEq, Eq)]
pub struct Value {
    pub variable: Option<String>,
    pub value: Option<String>,
}

/// The ways in which decoding or executing a program fails.
#[derive(Clone, Debug, PartialEq, Eq)]
pub enum ProgramError {
    /// An opcode name outside the table; it carries the offending token.
    DecodeError(String),
    StackUnderflow,
    UndefinedVariable,
    NumericParseError,
    ArithmeticError,
    /// A variable instruction without the name it needs.
    MissingOperand,
    /// The program did not halt within the number of steps it was given.
    StepLimitExceeded,
}

/// Mathematical form of an instruction.
pub struct Instr {
    pub op: Op,
    pub operand: Option<Seq<char>>,
}

/// Mathematical form of a stack cell.
pub struct Cell {
    pub binding: Option<Seq<char>>,
    pub payload: Option<Seq<char>>,
}

pub open spec fn text_of(o: Option<String>) -> Option<Seq<char>> {
    match o {
        Some(s) => Some(s@),
        None => None,
    }
}

impl View for ByteCode {
    type V = Instr;

    open spec fn view(&self) -> Instr {
        Instr { op: self.op, operand: text_of(self.value) }
    }
}

impl View for Value {
    type V = Cell;

    open spec fn view(&self) -> Cell {
        Cell { binding: text_of(self.variable), payload: text_of(self.value) }
    }
}

/// The name under which each opcode is written in program text.
pub open spec fn op_name(op: Op) -> Seq<char> {
    match op {
        Op::LoadVal => "LOAD_VAL"@,
        Op::WriteVar => "WRITE_VAR"@,
        Op::ReadVar => "READ_VAR"@,
        Op::Add => "ADD"@,
        Op::Subtract => "SUBTRACT"@,
        Op::Multiply => "MULTIPLY"@,
        Op::Divide => "DIVIDE"@,
        Op::ReturnValue => "RETURN_VALUE"@,
        Op::Goto => "GOTO"@,
        Op::IfCmpEq => "IF_CMP_EQ"@,
        Op::IfCmpGe => "IF_CMP_GE"@,
        Op::IfCmpGt => "IF_CMP_GT"@,
        Op::IfCmpLe => "IF_CMP_LE"@,
        Op::IfCmpLt => "IF_CMP_LT"@,
        Op::IfCmpNe => "IF_CMP_NE"@,
    }
}

/// Whether `s` is the name of some opcode.
pub open spec fn is_op_name(s: Seq<char>) -> bool {
    exists|op: Op| op_name(op) == s
}

/// Position of the first space in `s`, or its length when it has none.
pub open spec fn first_space(s: Seq<char>) -> int {
    if exists|i: int| 0 <= i < s.len() && s[i] == ' ' && forall|j: int| 0 <= j < i ==> s[j] != ' ' {
        choose|i: int| 0 <= i < s.len() && s[i] == ' ' && forall|j: int| 0 <= j < i ==> s[j] != ' '
    } else {
        s.len() as int
    }
}

/// The opcode token of a line: everything before the first space.
pub open spec fn line_token(s: Seq<char>) -> Seq<char> {
    s.take(first_space(s))
}

/// The operand of a line: everything after the first space, if there is one.
pub open spec fn line_operand(s: Seq<char>) -> Option<Seq<char>> {
    if first_space(s) < s.len() {
        Some(s.skip(first_space(s) + 1))
    } else {
        None
    }
}

fn same_text(a: &str, b: &str) -> (r: bool)
    ensures
        r == (a@ == b@),
{
    let n = a.unicode_len();
    if n != b.unicode_len() {
        return false;
    }
    let mut i: usize = 0;
    while i < n
        invariant
            n == a@.len() == b@.len(),
            i <= n,
            a@.take(i as int) == b@.take(i as int),
        decreases n - i,
    {
        if a.get_char(i) != b.get_char(i) {
            return false;
        }
        proof {
            assert(a@.take(i + 1) =~= a@.take(i as int).push(a@[i as int]));
            assert(b@.take(i + 1) =~= b@.take(i as int).push(b@[i as int]));
        }
        i = i + 1;
    }
    proof {
        assert(a@.take(n as int) =~= a@);
        assert(b@.take(n as int) =~= b@);
    }
    true
}

impl Op {
    /// Looks an opcode up by its exact, case-sensitive name.
    pub fn from_str(s: &str) -> (r: Result<Op, ProgramError>)
        ensures
            match r {
                Ok(op) => op_name(op) == s@,
                Err(e) => !is_op_name(s@) && e is DecodeError && e->DecodeError_0@ == s@,
            },
    {
        let table: [(Op, &str); 15] = [
            (Op::LoadVal, "LOAD_VAL"),
            (Op::WriteVar, "WRITE_VAR"),
            (Op::ReadVar, "READ_VAR"),
            (Op::Add, "ADD"),
            (Op::Subtract, "SUBTRACT"),
            (Op::Multiply, "MULTIPLY"),
            (Op::Divide, "DIVIDE"),
            (Op::ReturnValue, "RETURN_VALUE"),
            (Op::Goto, "GOTO"),
            (Op::IfCmpEq, "IF_CMP_EQ"),
            (Op::IfCmpGe, "IF_CMP_GE"),
            (Op::IfCmpGt, "IF_CMP_GT"),
            (Op::IfCmpLe, "IF_CMP_LE"),
            (Op::IfCmpLt, "IF_CMP_LT"),
            (Op::IfCmpNe, "IF_CMP_NE"),
        ];
        let mut i: usize = 0;
        while i < 15
            invariant
                i <= 15,
                forall|k: int| 0 <= k < 15 ==> op_name(#[trigger] table@[k].0) == table@[k].1@,
                forall|k: int| 0 <= k < i ==> table@[k].1@ != s@,
            decreases 15 - i,
        {
            if same_text(table[i].1, s) {
                return Ok(table[i].0);
            }
            i = i + 1;
        }
        proof {
            assert forall|op: Op| op_name(op) != s@ by {
                let k: int = match op {
                    Op::LoadVal => 0,
                    Op::WriteVar => 1,
                    Op::ReadVar => 2,
                    Op::Add => 3,
                    Op::Subtract => 4,
                    Op::Multiply => 5,
                    Op::Divide => 6,
                    Op::ReturnValue => 7,
                    Op::Goto => 8,
                    Op::IfCmpEq => 9,
                    Op::IfCmpGe => 10,
                    Op::IfCmpGt => 11,
                    Op::IfCmpLe => 12,
                    Op::IfCmpLt => 13,
                    Op::IfCmpNe => 14,
                };
                assert(table@[k].0 == op);
            }
        }
        Err(ProgramError::DecodeError(String::from_str(s)))
    }
}


impl ByteCode {
    /// Decodes one line of program text: `OPCODE`, optionally followed by a space and
    /// the operand, which is kept verbatim.
    pub fn decode(line: &str) -> (r: Result<ByteCode, ProgramError>)
        ensures
            match r {
                Ok(b) => op_name(b.op) == line_token(line@) && b@.operand == line_operand(line@),
                Err(e) => !is_op_name(line_token(line@)) && e is DecodeError
                    && e->DecodeError_0@ == line_token(line@),
            },
    {
        let n = line.unicode_len();
        let mut k: usize = 0;
        while k < n && line.get_char(k) != ' '
            invariant
                n == line@.len(),
                k <= n,
                forall|j: int| 0 <= j < k ==> line@[j] != ' ',
            decreases n - k,
        {
            k = k + 1;
        }
        proof {
            if k < n {
                assert(first_space(line@) == k) by {
                    let w = choose|i: int| 0 <= i < line@.len() && line@[i] == ' '
                        && forall|j: int| 0 <= j < i ==> line@[j] != ' ';
                    assert(0 <= k < line@.len() && line@[k as int] == ' '
                        && forall|j: int| 0 <= j < k ==> line@[j] != ' ');
                    if w < k {
                    } else if w > k {
                    }
                }
            } else {
                assert(first_space(line@) == n);
            }
        }
        let token = line.substring_char(0, k);
        let operand = if k < n {
            Some(String::from_str(line.substring_char(k + 1, n)))
        } else {
            None
        };
        proof {
            assert(line@.skip(k + 1) =~= line@.subrange(k + 1, n as int));
        }
        match Op::from_str(token) {
            Ok(op) => Ok(ByteCode { op, value: operand }),
            Err(e) => Err(e),
        }
    }
}

/// Decodes a whole program, one instruction per line. The first line whose opcode is
/// unknown makes the whole program fail.
pub fn decode_program(lines: &Vec<String>) -> (r: Result<Vec<ByteCode>, ProgramError>)
    ensures
        match r {
            Ok(code) => code.len() == lines.len() && forall|i: int| 0 <= i < lines.len() ==> {
                &&& op_name(#[trigger] code@[i].op) == line_token(lines@[i]@)
                &&& code@[i]@.operand == line_operand(lines@[i]@)
            },
            Err(e) => exists|i: int| {
                &&& 0 <= i < lines.len()
                &&& !is_op_name(line_token(#[trigger] lines@[i]@))
                &&& forall|j: int| 0 <= j < i ==> is_op_name(line_token(#[trigger] lines@[j]@))
                &&& e is DecodeError
                &&& e->DecodeError_0@ == line_token(lines@[i]@)
            },
        },
{
    let mut code: Vec<ByteCode> = Vec::new();
    let mut i: usize = 0;
    while i < lines.len()
        invariant
            i <= lines.len(),
            code.len() == i,
            forall|j: int| 0 <= j < i ==> {
                &&& op_name(#[trigger] code@[j].op) == line_token(lines@[j]@)
                &&& code@[j]@.operand == line_operand(lines@[j]@)
            },
        decreases lines.len() - i,
    {
        match ByteCode::decode(lines[i].as_str()) {
            Ok(b) => {
                code.push(b);
                proof {
                    assert forall|j: int| 0 <= j <= i implies is_op_name(line_token(#[trigger] lines@[j]@)) by {
                        assert(op_name(code@[j].op) == line_token(lines@[j]@));
                    }
                }
            },
            Err(e) => {
                proof {
                    assert forall|j: int| 0 <= j < i implies is_op_name(line_token(#[trigger] lines@[j]@)) by {
                        assert(op_name(code@[j].op) == line_token(lines@[j]@));
                    }
                }
                return Err(e);
            },
        }
        i = i + 1;
    }
    Ok(code)
}

} // verus!
