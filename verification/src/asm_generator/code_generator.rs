use vstd::prelude::*;

use super::asm_helpers::INSTRUCTION;
use crate::text::{join, push_joined, strings_view};

verus! {

/// The operands as owned strings.
fn args_from_borrowable(args: &[&str]) -> (res: Vec<String>)
    ensures
        res@.len() == args@.len(),
        forall|i: int| 0 <= i < args@.len() ==> #[trigger] res@[i]@ == args@[i]@,
{
    let mut res: Vec<String> = Vec::new();
    let mut i: usize = 0;
    while i < args.len()
        invariant
            i <= args@.len(),
            res@.len() == i,
            forall|j: int| 0 <= j < i ==> #[trigger] res@[j]@ == args@[j]@,
        decreases args@.len() - i,
    {
        res.push(String::from_str(args[i]));
        i = i + 1;
    }
    res
}

/// One instruction: a mnemonic and its operands.
pub struct Instruction {
    pub instruction: INSTRUCTION,
    pub args: Vec<String>,
}

impl View for Instruction {
    type V = (INSTRUCTION, Seq<Seq<char>>);

    open spec fn view(&self) -> (INSTRUCTION, Seq<Seq<char>>) {
        (self.instruction, strings_view(self.args@))
    }
}

/// How an instruction is written in the assembly text: the mnemonic, a space, and
/// the operands separated by commas.
pub open spec fn render_instruction(i: (INSTRUCTION, Seq<Seq<char>>)) -> Seq<char> {
    i.0.mnemonic() + " "@ + join(i.1, ","@)
}

impl Instruction {
    /// An instruction with the given operands.
    pub fn from(instruction: INSTRUCTION, args: &[&str]) -> (r: Instruction)
        ensures
            r@.0 == instruction,
            r@.1 == args@.map_values(|a: &str| a@),
    {
        let v = args_from_borrowable(args);
        let r = Instruction { instruction, args: v };
        proof {
            assert(r@.1 =~= args@.map_values(|a: &str| a@));
        }
        r
    }

    /// The instruction as a line of assembly text.
    pub fn to_string(&self) -> (s: String)
        ensures
            s@ == render_instruction(self@),
    {
        let mut s = self.instruction.to_string();
        s.append(" ");
        push_joined(&mut s, &self.args, ",");
        s
    }
}

/// A jump target.
pub struct Label {
    pub name: String,
}

impl Label {
    pub fn from(name: &str) -> (l: Label)
        ensures
            l.name@ == name@,
    {
        Label { name: String::from_str(name) }
    }

    /// The label as a line of assembly text: its name and a colon.
    pub fn to_string(&self) -> (s: String)
        ensures
            s@ == self.name@ + ":"@,
    {
        let mut s = self.name.clone();
        s.append(":");
        s
    }
}

/// A definition in the data or bss section: a name, a directive and its operands.
pub struct Data {
    pub name: String,
    pub kind: String,
    pub args: Vec<String>,
}

/// The mathematical model of a [`Data`] definition.
pub struct DataModel {
    pub name: Seq<char>,
    pub kind: Seq<char>,
    pub args: Seq<Seq<char>>,
}

impl View for Data {
    type V = DataModel;

    open spec fn view(&self) -> DataModel {
        DataModel { name: self.name@, kind: self.kind@, args: strings_view(self.args@) }
    }
}

/// How a definition is written: name, directive and comma-separated operands,
/// separated by spaces.
pub open spec fn render_data(d: DataModel) -> Seq<char> {
    d.name + " "@ + d.kind + " "@ + join(d.args, ","@)
}

impl Data {
    pub fn from(name: &str, kind: &str, args: &[&str]) -> (d: Data)
        ensures
            d@ == (DataModel {
                name: name@,
                kind: kind@,
                args: args@.map_values(|a: &str| a@),
            }),
    {
        let v = args_from_borrowable(args);
        let d = Data { name: String::from_str(name), kind: String::from_str(kind), args: v };
        proof {
            assert(d@.args =~= args@.map_values(|a: &str| a@));
        }
        d
    }

    /// The definition as a line of assembly text.
    pub fn to_string(&self) -> (s: String)
        ensures
            s@ == render_data(self@),
    {
        let mut s = self.name.clone();
        s.append(" ");
        s.append(self.kind.as_str());
        s.append(" ");
        push_joined(&mut s, &self.args, ",");
        s
    }
}

/// A line of the text section: an instruction or a label.
pub enum TextLines {
    Instruction(Instruction),
    Label(Label),
}

/// The mathematical model of a line of the text section.
pub enum LineModel {
    Instruction(INSTRUCTION, Seq<Seq<char>>),
    Label(Seq<char>),
}

impl View for TextLines {
    type V = LineModel;

    open spec fn view(&self) -> LineModel {
        match self {
            TextLines::Instruction(i) => LineModel::Instruction(i@.0, i@.1),
            TextLines::Label(l) => LineModel::Label(l.name@),
        }
    }
}

pub open spec fn render_line(l: LineModel) -> Seq<char> {
    match l {
        LineModel::Instruction(op, args) => render_instruction((op, args)),
        LineModel::Label(name) => name + ":"@,
    }
}

/// Each line rendered and followed by a newline.
pub open spec fn render_lines(lines: Seq<LineModel>) -> Seq<char>
    decreases lines.len(),
{
    if lines.len() == 0 {
        Seq::empty()
    } else {
        render_lines(lines.drop_last()) + render_line(lines.last()) + "\n"@
    }
}

/// Rendering text lines distributes over their concatenation.
pub proof fn lemma_render_lines_concat(a: Seq<LineModel>, b: Seq<LineModel>)
    ensures
        render_lines(a + b) == render_lines(a) + render_lines(b),
    decreases b.len(),
{
    if b.len() == 0 {
        assert(a + b =~= a);
    } else {
        lemma_render_lines_concat(a, b.drop_last());
        assert((a + b).drop_last() =~= a + b.drop_last());
        assert((a + b).last() == b.last());
    }
}

/// Each definition rendered and followed by a newline.
pub open spec fn render_datas(ds: Seq<DataModel>) -> Seq<char>
    decreases ds.len(),
{
    if ds.len() == 0 {
        Seq::empty()
    } else {
        render_datas(ds.drop_last()) + render_data(ds.last()) + "\n"@
    }
}

/// The model of a generator: the main text, the function bodies (which go at the
/// end of the text section), the data section and the bss section.
#[verifier::ext_equal]
pub struct GeneratorModel {
    pub text: Seq<LineModel>,
    pub fns: Seq<LineModel>,
    pub data: Seq<DataModel>,
    pub bss: Seq<DataModel>,
}

impl GeneratorModel {
    pub open spec fn empty() -> GeneratorModel {
        GeneratorModel { text: seq![], fns: seq![], data: seq![], bss: seq![] }
    }

    pub open spec fn add_line(self, l: LineModel) -> GeneratorModel {
        GeneratorModel { text: self.text.push(l), ..self }
    }

    pub open spec fn add_inst(self, op: INSTRUCTION, args: Seq<Seq<char>>) -> GeneratorModel {
        self.add_line(LineModel::Instruction(op, args))
    }

    pub open spec fn add_lines(self, ls: Seq<LineModel>) -> GeneratorModel {
        GeneratorModel { text: self.text + ls, ..self }
    }

    pub open spec fn add_data(self, d: DataModel) -> GeneratorModel {
        GeneratorModel { data: self.data.push(d), ..self }
    }

    pub open spec fn add_bss(self, d: DataModel) -> GeneratorModel {
        GeneratorModel { bss: self.bss.push(d), ..self }
    }

    /// The effect of appending a function's generator: its text joins the
    /// function section and its bss joins the bss section.
    pub open spec fn append(self, other: GeneratorModel) -> GeneratorModel {
        GeneratorModel { fns: self.fns + other.text, bss: self.bss + other.bss, ..self }
    }
}

/// The names of the C library functions that programs may call directly.
pub const GLOBAL_EXTERNAL_FUNCTIONS: [&'static str; 2] = ["cos", "sin"];


/// A generator of x86-64 assembly in NASM syntax.
pub struct Generator {
    section_text: Vec<TextLines>,
    section_fn: Vec<TextLines>,
    section_data: Vec<Data>,
    section_bss: Vec<Data>,
}

pub open spec fn lines_view(v: Seq<TextLines>) -> Seq<LineModel> {
    v.map_values(|l: TextLines| l@)
}

pub open spec fn datas_view(v: Seq<Data>) -> Seq<DataModel> {
    v.map_values(|d: Data| d@)
}

impl View for Generator {
    type V = GeneratorModel;

    closed spec fn view(&self) -> GeneratorModel {
        GeneratorModel {
            text: lines_view(self.section_text@),
            fns: lines_view(self.section_fn@),
            data: datas_view(self.section_data@),
            bss: datas_view(self.section_bss@),
        }
    }
}

/// The text section: its header, then every line.
pub open spec fn render_text_section(lines: Seq<LineModel>) -> Seq<char> {
    "section .text\n"@ + "    global main\n"@ + "main:\n"@ + render_lines(lines)
}

pub open spec fn render_data_section(ds: Seq<DataModel>) -> Seq<char> {
    "segment .data\n"@ + render_datas(ds)
}

pub open spec fn render_bss_section(ds: Seq<DataModel>) -> Seq<char> {
    "segment .bss\n"@ + render_datas(ds)
}

/// An `extern` line for each name.
pub open spec fn render_externs(names: Seq<Seq<char>>) -> Seq<char>
    decreases names.len(),
{
    if names.len() == 0 {
        Seq::empty()
    } else {
        render_externs(names.drop_last()) + "extern "@ + names.last() + "\n"@
    }
}

/// The C library functions that programs may call directly, as text.
pub open spec fn global_extern_names() -> Seq<Seq<char>> {
    seq![GLOBAL_EXTERNAL_FUNCTIONS[0]@, GLOBAL_EXTERNAL_FUNCTIONS[1]@]
}

/// The `extern` lines for the graphics library, `printf` and `fflush`.
pub open spec fn fixed_externs() -> Seq<char> {
    "extern draw_shape\n"@ + "extern create_window\n"@ + "extern destroy_window\n"@
        + "extern blit\n"@ + "extern clear\n"@ + "extern printf\n"@ + "extern fflush\n"@
}

/// The `extern` declarations of every function that a program may call.
pub open spec fn render_externs_section() -> Seq<char> {
    fixed_externs() + render_externs(global_extern_names())
}

/// The lines that end the main program: the `exit(0)` system call.
pub open spec fn exit_lines() -> Seq<LineModel> {
    seq![
        LineModel::Instruction(INSTRUCTION::MOV, seq!["eax"@, "1"@]),
        LineModel::Instruction(INSTRUCTION::MOV, seq!["ebx"@, "0"@]),
        LineModel::Instruction(INSTRUCTION::INT, seq!["0x80"@]),
    ]
}

/// The format string that `print` hands to `printf`.
pub open spec fn print_format_data() -> DataModel {
    DataModel { name: "print_fmt_str"@, kind: "db"@, args: seq!["`%.2f\\n\\0`"@, "0"@] }
}

/// The generator after `generate` has completed the program: the format string
/// is defined, the exit sequence ends the main text, and the function bodies
/// follow it.
pub open spec fn finished(g: GeneratorModel) -> GeneratorModel {
    GeneratorModel {
        text: g.text + exit_lines() + g.fns,
        fns: seq![],
        data: g.data.push(print_format_data()),
        bss: g.bss,
    }
}

/// One step in building a generator: a line added to the main text
/// (`add_inst`, `add_label`), or a function's generator appended (`append`).
pub enum GenStep {
    Line(LineModel),
    Append(GeneratorModel),
}

/// The generator after `steps`, in order, starting from `g`.
pub open spec fn apply_steps(g: GeneratorModel, steps: Seq<GenStep>) -> GeneratorModel
    decreases steps.len(),
{
    if steps.len() == 0 {
        g
    } else {
        let g1 = apply_steps(g, steps.drop_last());
        match steps.last() {
            GenStep::Line(l) => g1.add_line(l),
            GenStep::Append(o) => g1.append(o),
        }
    }
}

/// The lines that `steps` add to the main text, in order.
pub open spec fn main_lines(steps: Seq<GenStep>) -> Seq<LineModel>
    decreases steps.len(),
{
    if steps.len() == 0 {
        Seq::empty()
    } else {
        match steps.last() {
            GenStep::Line(l) => main_lines(steps.drop_last()).push(l),
            GenStep::Append(_) => main_lines(steps.drop_last()),
        }
    }
}

/// The text of the functions that `steps` append, in order.
pub open spec fn function_lines(steps: Seq<GenStep>) -> Seq<LineModel>
    decreases steps.len(),
{
    if steps.len() == 0 {
        Seq::empty()
    } else {
        match steps.last() {
            GenStep::Line(_) => function_lines(steps.drop_last()),
            GenStep::Append(o) => function_lines(steps.drop_last()) + o.text,
        }
    }
}

proof fn lemma_apply_steps_sections(steps: Seq<GenStep>)
    ensures
        apply_steps(GeneratorModel::empty(), steps).text == main_lines(steps),
        apply_steps(GeneratorModel::empty(), steps).fns == function_lines(steps),
    decreases steps.len(),
{
    if steps.len() > 0 {
        lemma_apply_steps_sections(steps.drop_last());
    }
}

/// In whatever order main lines and functions are added to a new generator,
/// the finished text holds the main lines in order, then the exit sequence,
/// then the functions' code in order: function code always follows the main
/// program and its exit.
pub proof fn lemma_functions_follow_main(steps: Seq<GenStep>)
    ensures
        finished(apply_steps(GeneratorModel::empty(), steps)).text == main_lines(steps) + exit_lines()
            + function_lines(steps),
{
    lemma_apply_steps_sections(steps);
}

/// The whole assembly file of a finished generator.
pub open spec fn render_program(g: GeneratorModel) -> Seq<char> {
    render_externs_section() + render_text_section(g.text) + "\n"@
        + render_data_section(g.data) + "\n"@ + render_bss_section(g.bss)
}

impl Generator {
    pub fn new() -> (g: Generator)
        ensures
            g@ == GeneratorModel::empty(),
    {
        let g = Generator {
            section_text: Vec::new(),
            section_fn: Vec::new(),
            section_data: Vec::new(),
            section_bss: Vec::new(),
        };
        proof {
            assert(g@ =~= GeneratorModel::empty());
        }
        g
    }

    fn generate_text_section(&self, output: &mut String)
        ensures
            final(output)@ == old(output)@ + render_text_section(self@.text),
    {
        output.append("section .text\n");
        output.append("    global main\n");
        output.append("main:\n");
        let ghost start = output@;
        let ghost lines = self@.text;
        let mut i: usize = 0;
        while i < self.section_text.len()
            invariant
                i <= self.section_text@.len(),
                lines == self@.text,
                lines.len() == self.section_text@.len(),
                output@ == start + render_lines(lines.take(i as int)),
            decreases self.section_text@.len() - i,
        {
            proof {
                assert(lines.take(i + 1).drop_last() =~= lines.take(i as int));
                assert(lines.take(i + 1).last() == self.section_text@[i as int]@);
            }
            match &self.section_text[i] {
                TextLines::Instruction(instruct) => {
                    let l = instruct.to_string();
                    output.append(l.as_str());
                },
                TextLines::Label(label) => {
                    let l = label.to_string();
                    output.append(l.as_str());
                },
            }
            output.append("\n");
            i = i + 1;
        }
        proof {
            assert(lines.take(lines.len() as int) =~= lines);
        }
    }

    fn generate_datas(ds: &Vec<Data>, output: &mut String)
        ensures
            final(output)@ == old(output)@ + render_datas(datas_view(ds@)),
    {
        let ghost start = output@;
        let ghost v = datas_view(ds@);
        let mut i: usize = 0;
        while i < ds.len()
            invariant
                i <= ds@.len(),
                v == datas_view(ds@),
                output@ == start + render_datas(v.take(i as int)),
            decreases ds@.len() - i,
        {
            proof {
                assert(v.take(i + 1).drop_last() =~= v.take(i as int));
                assert(v.take(i + 1).last() == ds@[i as int]@);
            }
            let l = ds[i].to_string();
            output.append(l.as_str());
            output.append("\n");
            i = i + 1;
        }
        proof {
            assert(v.take(ds@.len() as int) =~= v);
        }
    }

    fn generate_data_section(&self, output: &mut String)
        ensures
            final(output)@ == old(output)@ + render_data_section(self@.data),
    {
        output.append("segment .data\n");
        Self::generate_datas(&self.section_data, output);
    }

    fn generate_bss_section(&self, output: &mut String)
        ensures
            final(output)@ == old(output)@ + render_bss_section(self@.bss),
    {
        output.append("segment .bss\n");
        Self::generate_datas(&self.section_bss, output);
    }

    fn generate_externs_section(&self, output: &mut String)
        ensures
            final(output)@ == old(output)@ + render_externs_section(),
    {
        let ghost start = output@;
        output.append("extern draw_shape\n");
        output.append("extern create_window\n");
        output.append("extern destroy_window\n");
        output.append("extern blit\n");
        output.append("extern clear\n");
        output.append("extern printf\n");
        output.append("extern fflush\n");
        let ghost names = global_extern_names();
        proof {
            assert(names.take(0) =~= Seq::<Seq<char>>::empty());
        }
        let mut i: usize = 0;
        while i < 2
            invariant
                i <= 2,
                names == global_extern_names(),
                output@ == start + fixed_externs() + render_externs(names.take(i as int)),
            decreases 2 - i,
        {
            proof {
                assert(names.take(i + 1).drop_last() =~= names.take(i as int));
                assert(names.take(i + 1).last() == GLOBAL_EXTERNAL_FUNCTIONS@[i as int]@);
            }
            output.append("extern ");
            output.append(GLOBAL_EXTERNAL_FUNCTIONS[i]);
            output.append("\n");
            i = i + 1;
        }
        proof {
            assert(names.take(2) =~= names);
        }
    }

    /// Completes the program (format string, exit sequence, function bodies) and
    /// returns the whole assembly file.
    pub fn generate(&mut self) -> (output: String)
        ensures
            final(self)@ == finished(old(self)@),
            output@ == render_program(final(self)@),
    {
        let mut output = String::new();

        let fmt = Data::from("print_fmt_str", "db", &["`%.2f\\n\\0`", "0"]);
        assert(fmt@.args =~= print_format_data().args);
        self.add_data(fmt);

        let i1 = Instruction::from(INSTRUCTION::MOV, &["eax", "1"]);
        assert(i1@.1 =~= seq!["eax"@, "1"@]);
        self.add_inst(i1);
        let i2 = Instruction::from(INSTRUCTION::MOV, &["ebx", "0"]);
        assert(i2@.1 =~= seq!["ebx"@, "0"@]);
        self.add_inst(i2);
        let i3 = Instruction::from(INSTRUCTION::INT, &["0x80"]);
        assert(i3@.1 =~= seq!["0x80"@]);
        self.add_inst(i3);

        let ghost before = self@;
        self.section_text.append(&mut self.section_fn);
        proof {
            assert(before.text =~= old(self)@.text + exit_lines());
            assert(before.data =~= old(self)@.data.push(print_format_data()));
            assert(self@.text =~= before.text + before.fns);
            assert(self@ =~= finished(old(self)@));
        }

        self.generate_externs_section(&mut output);
        self.generate_text_section(&mut output);
        output.append("\n");
        self.generate_data_section(&mut output);
        output.append("\n");
        self.generate_bss_section(&mut output);
        output
    }

    pub fn add_inst(&mut self, inst: Instruction)
        ensures
            final(self)@ == old(self)@.add_inst(inst@.0, inst@.1),
    {
        self.section_text.push(TextLines::Instruction(inst));
        proof {
            assert(self@ =~= old(self)@.add_inst(inst@.0, inst@.1));
        }
    }

    pub fn add_label(&mut self, label: Label)
        ensures
            final(self)@ == old(self)@.add_line(LineModel::Label(label.name@)),
    {
        self.section_text.push(TextLines::Label(label));
        proof {
            assert(self@ =~= old(self)@.add_line(LineModel::Label(label.name@)));
        }
    }

    pub fn add_bss(&mut self, data: Data)
        ensures
            final(self)@ == old(self)@.add_bss(data@),
    {
        self.section_bss.push(data);
        proof {
            assert(self@ =~= old(self)@.add_bss(data@));
        }
    }

    pub fn add_data(&mut self, data: Data)
        ensures
            final(self)@ == old(self)@.add_data(data@),
    {
        self.section_data.push(data);
        proof {
            assert(self@ =~= old(self)@.add_data(data@));
        }
    }

    /// Moves the text and bss of `gen` (a function's generator) into this one:
    /// the text goes to the function section, the bss to the bss section.
    pub fn append(&mut self, gen: &mut Generator)
        ensures
            final(self)@ == old(self)@.append(old(gen)@),
            final(gen)@ == (GeneratorModel { text: seq![], bss: seq![], ..old(gen)@ }),
    {
        self.section_fn.append(&mut gen.section_text);
        self.section_bss.append(&mut gen.section_bss);
        proof {
            assert(self@ =~= old(self)@.append(old(gen)@));
            assert(gen@ =~= (GeneratorModel { text: seq![], bss: seq![], ..old(gen)@ }));
        }
    }
}

/// Adds the instruction `op a` to the text.
pub(crate) fn emit1(gen: &mut Generator, op: INSTRUCTION, a: &str)
    ensures
        final(gen)@ == old(gen)@.add_inst(op, seq![a@]),
{
    let i = Instruction::from(op, &[a]);
    assert(i@.1 =~= seq![a@]);
    gen.add_inst(i);
}

/// Adds the instruction `op a,b` to the text.
pub(crate) fn emit2(gen: &mut Generator, op: INSTRUCTION, a: &str, b: &str)
    ensures
        final(gen)@ == old(gen)@.add_inst(op, seq![a@, b@]),
{
    let i = Instruction::from(op, &[a, b]);
    assert(i@.1 =~= seq![a@, b@]);
    gen.add_inst(i);
}

} // verus!
