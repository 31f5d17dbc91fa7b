use vstd::prelude::*;

use crate::text::{join, push_joined, strings_view};

verus! {

/// An instruction of the plain text generator: a mnemonic and its operands.
pub struct Instruction {
    pub instruction: String,
    pub args: Vec<String>,
}

impl View for Instruction {
    type V = (Seq<char>, Seq<Seq<char>>);

    open spec fn view(&self) -> (Seq<char>, Seq<Seq<char>>) {
        (self.instruction@, strings_view(self.args@))
    }
}

/// How an instruction is written: the mnemonic, a space, and the operands
/// separated by spaces.
pub open spec fn render_plain_instruction(i: (Seq<char>, Seq<Seq<char>>)) -> Seq<char> {
    i.0 + " "@ + join(i.1, " "@)
}

impl Instruction {
    pub fn to_string(&self) -> (s: String)
        ensures
            s@ == render_plain_instruction(self@),
    {
        let mut s = self.instruction.clone();
        s.append(" ");
        push_joined(&mut s, &self.args, " ");
        s
    }
}

/// A data definition of the plain text generator (it has no contents).
pub struct Data {}

/// A generator of a 32-bit program that consists of a text section only.
pub struct Generator {
    section_text: Vec<Instruction>,
    section_data: Vec<Data>,
}

impl View for Generator {
    type V = Seq<(Seq<char>, Seq<Seq<char>>)>;

    closed spec fn view(&self) -> Seq<(Seq<char>, Seq<Seq<char>>)> {
        self.section_text@.map_values(|i: Instruction| i@)
    }
}

/// The instructions rendered, each followed by a newline.
pub open spec fn render_plain_lines(lines: Seq<(Seq<char>, Seq<Seq<char>>)>) -> Seq<char>
    decreases lines.len(),
{
    if lines.len() == 0 {
        Seq::empty()
    } else {
        render_plain_lines(lines.drop_last()) + render_plain_instruction(lines.last()) + "\n"@
    }
}

/// The text section of the plain generator: its header, then every instruction.
pub open spec fn render_plain_text_section(lines: Seq<(Seq<char>, Seq<Seq<char>>)>) -> Seq<char> {
    "section .text\n"@ + "    global _start\n"@ + "_start:\n"@ + render_plain_lines(lines)
}

impl Generator {
    pub fn new() -> (g: Generator)
        ensures
            g@ == Seq::<(Seq<char>, Seq<Seq<char>>)>::empty(),
    {
        let g = Generator { section_text: Vec::new(), section_data: Vec::new() };
        proof {
            assert(g@ =~= Seq::<(Seq<char>, Seq<Seq<char>>)>::empty());
        }
        g
    }

    fn generate_text_section(&self, output: &mut String)
        ensures
            final(output)@ == old(output)@ + render_plain_text_section(self@),
    {
        output.append("section .text\n");
        output.append("    global _start\n");
        output.append("_start:\n");
        let ghost start = output@;
        let ghost lines = self@;
        let mut i: usize = 0;
        while i < self.section_text.len()
            invariant
                i <= self.section_text@.len(),
                lines == self@,
                lines.len() == self.section_text@.len(),
                output@ == start + render_plain_lines(lines.take(i as int)),
            decreases self.section_text@.len() - i,
        {
            proof {
                assert(lines.take(i + 1).drop_last() =~= lines.take(i as int));
                assert(lines.take(i + 1).last() == self.section_text@[i as int]@);
            }
            let l = self.section_text[i].to_string();
            output.append(l.as_str());
            output.append("\n");
            i = i + 1;
        }
        proof {
            assert(lines.take(lines.len() as int) =~= lines);
        }
    }

    /// The program text (which the command-line driver prints).
    pub fn generate(&self) -> (output: String)
        ensures
            output@ == render_plain_text_section(self@),
    {
        let mut output = String::new();
        self.generate_text_section(&mut output);
        output
    }

    pub fn add_inst(&mut self, inst: Instruction)
        ensures
            final(self)@ == old(self)@.push(inst@),
    {
        self.section_text.push(inst);
        proof {
            assert(self@ =~= old(self)@.push(inst@));
        }
    }
}

} // verus!
