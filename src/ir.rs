use crate::path::{joined, Path};
use vstd::prelude::*;
use vstd::string::StringExecFns;

verus! {

/// An instruction of the lowered program.
pub struct Instruction {
    pub kind: InstructionKind,
}

/// The kinds of instructions.
pub enum InstructionKind {
    /// A call `Call(first, function, last)`, shown as `first function last`.
    Call(String, String, String),
    /// A command, without a leading `/`.
    Command(String),
    /// A command that runs another after it, e.g. `execute as @a run` then `say hi`.
    Chain(Box<Instruction>, Box<Instruction>),
    /// A nested block.
    Block(Block),
}

/// A block of instructions.
pub struct Block {
    pub instructions: Vec<Instruction>,
}

/// A named function and its block.
pub struct Function {
    pub name: String,
    pub block: Block,
}

/// A file of functions, with the path of its module.
pub struct File {
    pub path: Path,
    pub functions: Vec<Function>,
}

/// A single space.
pub open spec fn space() -> Seq<char> {
    seq![' ']
}

/// A line break.
pub open spec fn newline() -> Seq<char> {
    seq!['\n']
}

/// The display form of an instruction.
pub open spec fn instruction_text(i: Instruction) -> Seq<char>
    decreases i,
{
    match i.kind {
        InstructionKind::Call(a, b, c) => a@ + space() + b@ + space() + c@,
        InstructionKind::Command(c) => c@,
        InstructionKind::Chain(x, y) => instruction_text(*x) + space() + instruction_text(*y),
        InstructionKind::Block(b) => block_text(b),
    }
}

/// Each instruction's display form followed by a newline.
pub open spec fn lines_text(s: Seq<Instruction>) -> Seq<char>
    decreases s,
{
    if s.len() == 0 {
        Seq::empty()
    } else {
        lines_text(s.drop_last()) + instruction_text(s.last()) + newline()
    }
}

/// The display form of a block: its instructions, one per line, in braces.
pub open spec fn block_text(b: Block) -> Seq<char>
    decreases b,
{
    seq!['{', '\n'] + lines_text(b.instructions@) + seq!['}']
}

/// The display form of a function: its name, a space, then its block.
pub open spec fn function_text(f: Function) -> Seq<char> {
    f.name@ + space() + block_text(f.block)
}

/// Each function's display form followed by a newline.
pub open spec fn functions_text(s: Seq<Function>) -> Seq<char>
    decreases s.len(),
{
    if s.len() == 0 {
        Seq::empty()
    } else {
        functions_text(s.drop_last()) + function_text(s.last()) + newline()
    }
}

/// The display form of a file: a `File:` line with the module path, then its functions.
pub open spec fn file_text(f: File) -> Seq<char> {
    seq!['F', 'i', 'l', 'e', ':', ' '] + joined(f.path@) + newline() + functions_text(f.functions@)
}

impl Instruction {
    /// Appends the display form to `out`.
    fn append_to(&self, out: &mut String)
        ensures
            final(out)@ == old(out)@ + instruction_text(*self),
        decreases *self,
    {
        proof {
            reveal_strlit(" ");
        }
        match &self.kind {
            InstructionKind::Call(a, b, c) => {
                out.append(a.as_str());
                out.append(" ");
                out.append(b.as_str());
                out.append(" ");
                out.append(c.as_str());
            },
            InstructionKind::Command(c) => {
                out.append(c.as_str());
            },
            InstructionKind::Chain(x, y) => {
                x.append_to(out);
                out.append(" ");
                y.append_to(out);
            },
            InstructionKind::Block(b) => {
                b.append_to(out);
            },
        }
        assert(final(out)@ =~= old(out)@ + instruction_text(*self));
    }

    /// The display form of the instruction.
    pub fn to_string(&self) -> (r: String)
        ensures
            r@ == instruction_text(*self),
    {
        let mut r = String::new();
        self.append_to(&mut r);
        assert(r@ =~= instruction_text(*self));
        r
    }
}

impl Block {
    /// Appends the display form to `out`.
    fn append_to(&self, out: &mut String)
        ensures
            final(out)@ == old(out)@ + block_text(*self),
        decreases *self, 1nat,
    {
        proof {
            reveal_strlit("{\n");
            reveal_strlit("\n");
            reveal_strlit("}");
        }
        let ghost start = out@;
        out.append("{\n");
        let mut i: usize = 0;
        while i < self.instructions.len()
            invariant
                i <= self.instructions.len(),
                out@ == start + seq!['{', '\n'] + lines_text(self.instructions@.take(i as int)),
            decreases self.instructions.len() - i,
        {
            proof {
                assert(decreases_to!(*self => self.instructions@[i as int]));
            }
            self.instructions[i].append_to(out);
            out.append("\n");
            proof {
                reveal_strlit("\n");
                let s = self.instructions@.take(i as int + 1);
                assert(s.drop_last() =~= self.instructions@.take(i as int));
                assert(s.last() == self.instructions@[i as int]);
                assert(out@ =~= start + seq!['{', '\n'] + lines_text(s));
            }
            i = i + 1;
        }
        out.append("}");
        assert(self.instructions@.take(i as int) =~= self.instructions@);
        assert(out@ =~= start + block_text(*self));
    }

    /// The display form of the block.
    pub fn to_string(&self) -> (r: String)
        ensures
            r@ == block_text(*self),
    {
        let mut r = String::new();
        self.append_to(&mut r);
        assert(r@ =~= block_text(*self));
        r
    }
}

impl Function {
    /// The display form of the function.
    pub fn to_string(&self) -> (r: String)
        ensures
            r@ == function_text(*self),
    {
        proof {
            reveal_strlit(" ");
        }
        let mut r = String::new();
        r.append(self.name.as_str());
        r.append(" ");
        self.block.append_to(&mut r);
        assert(r@ =~= function_text(*self));
        r
    }
}

impl File {
    /// The display form of the file.
    pub fn to_string(&self) -> (r: String)
        ensures
            r@ == file_text(*self),
    {
        proof {
            reveal_strlit("File: ");
            reveal_strlit("\n");
        }
        let mut r = String::new();
        r.append("File: ");
        let p = self.path.to_string();
        r.append(p.as_str());
        r.append("\n");
        let ghost start = r@;
        let mut i: usize = 0;
        while i < self.functions.len()
            invariant
                i <= self.functions.len(),
                r@ == start + functions_text(self.functions@.take(i as int)),
            decreases self.functions.len() - i,
        {
            let f = self.functions[i].to_string();
            r.append(f.as_str());
            r.append("\n");
            proof {
                reveal_strlit("\n");
                let s = self.functions@.take(i as int + 1);
                assert(s.drop_last() =~= self.functions@.take(i as int));
                assert(s.last() == self.functions@[i as int]);
                assert(r@ =~= start + functions_text(s));
            }
            i = i + 1;
        }
        assert(self.functions@.take(i as int) =~= self.functions@);
        assert(r@ =~= file_text(*self));
        r
    }
}

} // verus!
