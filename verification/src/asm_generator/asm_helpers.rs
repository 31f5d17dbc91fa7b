use vstd::prelude::*;

use super::calling_convention_imp::{args_view, call_with, ArgModel, Args};
use super::code_generator::{emit1, emit2, Generator, Label, LineModel};
use crate::ast_parser::ast_util::{make_anonyomus_stack_alloc, pop_anoynomus_stack, push_reg_to_stack};
use crate::ast_parser::symbol_table::{
    anim_stack_len, anim_stack_pop, anim_stack_restore, anim_stack_snapshot, slot_offset,
    SymbolTable, SymbolTableModel,
};
use crate::ast_parser::{alloc_limit, call_effect, emit, push_reg, stack_load, CodegenState};
use crate::errors::compiler_errors::{CompilerErrorModel, CompilerErrors};
use crate::text::{decimal, push_decimal};

verus! {

/// The x86-64 instructions that the code generator emits.
#[derive(Clone, Copy, Debug, PartialEq, Eq, Structural)]
pub enum INSTRUCTION {
    MOVQ,
    MOVD,
    MOVSD,
    MOVAPD,
    MOV,
    INT,
    ADD,
    SUB,
    ADDSD,
    SUBSD,
    MULSD,
    DIVSD,
    PUSH,
    POP,
    CMP,
    JNZ,
    RET,
    CALL,
    INC,
    LOOP,
    DEC,
    SYSCALL,
    CVTSD2SI,
    CVTSI2SD,
}

impl INSTRUCTION {
    /// The assembler mnemonic of the instruction.
    pub open spec fn mnemonic(self) -> Seq<char> {
        match self {
            INSTRUCTION::MOVQ => "MOVQ"@,
            INSTRUCTION::MOVD => "MOVD"@,
            INSTRUCTION::MOVSD => "MOVSD"@,
            INSTRUCTION::MOVAPD => "MOVAPD"@,
            INSTRUCTION::MOV => "MOV"@,
            INSTRUCTION::INT => "INT"@,
            INSTRUCTION::ADD => "ADD"@,
            INSTRUCTION::SUB => "SUB"@,
            INSTRUCTION::ADDSD => "ADDSD"@,
            INSTRUCTION::SUBSD => "SUBSD"@,
            INSTRUCTION::MULSD => "MULSD"@,
            INSTRUCTION::DIVSD => "DIVSD"@,
            INSTRUCTION::PUSH => "PUSH"@,
            INSTRUCTION::POP => "POP"@,
            INSTRUCTION::CMP => "CMP"@,
            INSTRUCTION::JNZ => "JNZ"@,
            INSTRUCTION::RET => "RET"@,
            INSTRUCTION::CALL => "CALL"@,
            INSTRUCTION::INC => "INC"@,
            INSTRUCTION::LOOP => "LOOP"@,
            INSTRUCTION::DEC => "DEC"@,
            INSTRUCTION::SYSCALL => "SYSCALL"@,
            INSTRUCTION::CVTSD2SI => "CVTSD2SI"@,
            INSTRUCTION::CVTSI2SD => "CVTSI2SD"@,
        }
    }

    /// The assembler mnemonic of the instruction.
    pub fn to_string(&self) -> (s: String)
        ensures
            s@ == self.mnemonic(),
    {
        match self {
            INSTRUCTION::MOVQ => String::from_str("MOVQ"),
            INSTRUCTION::MOVD => String::from_str("MOVD"),
            INSTRUCTION::MOVSD => String::from_str("MOVSD"),
            INSTRUCTION::MOVAPD => String::from_str("MOVAPD"),
            INSTRUCTION::MOV => String::from_str("MOV"),
            INSTRUCTION::INT => String::from_str("INT"),
            INSTRUCTION::ADD => String::from_str("ADD"),
            INSTRUCTION::SUB => String::from_str("SUB"),
            INSTRUCTION::ADDSD => String::from_str("ADDSD"),
            INSTRUCTION::SUBSD => String::from_str("SUBSD"),
            INSTRUCTION::MULSD => String::from_str("MULSD"),
            INSTRUCTION::DIVSD => String::from_str("DIVSD"),
            INSTRUCTION::PUSH => String::from_str("PUSH"),
            INSTRUCTION::POP => String::from_str("POP"),
            INSTRUCTION::CMP => String::from_str("CMP"),
            INSTRUCTION::JNZ => String::from_str("JNZ"),
            INSTRUCTION::RET => String::from_str("RET"),
            INSTRUCTION::CALL => String::from_str("CALL"),
            INSTRUCTION::INC => String::from_str("INC"),
            INSTRUCTION::LOOP => String::from_str("LOOP"),
            INSTRUCTION::DEC => String::from_str("DEC"),
            INSTRUCTION::SYSCALL => String::from_str("SYSCALL"),
            INSTRUCTION::CVTSD2SI => String::from_str("CVTSD2SI"),
            INSTRUCTION::CVTSI2SD => String::from_str("CVTSI2SD"),
        }
    }
}

/// The number of frames that an animation runs for.
pub open spec fn animation_frames() -> nat {
    500
}

/// `st` with its top pending animation taken off.
pub open spec fn pop_anim(st: CodegenState) -> CodegenState {
    (st.0, SymbolTableModel { anim: st.1.anim.drop_last(), ..st.1 })
}

/// The texture choice of an animation: its shape callback called with 1, or,
/// without a shape callback, texture 0 (the texture a shape callback leaves
/// unless it sets one).
pub open spec fn texture_choice(st1: CodegenState, shape: Option<Seq<char>>) -> Result<CodegenState, CompilerErrorModel> {
    match shape {
        Some(f) => call_effect(st1, f, seq![ArgModel::Int(1)]),
        None => Ok(emit(st1, INSTRUCTION::MOV, seq!["rdi"@, "0"@])),
    }
}

/// For each pending animation, top first: its texture is chosen (see
/// `texture_choice`) and loaded, and kept in a hidden slot named after the
/// animation's position in the stack.
pub open spec fn load_textures(st: CodegenState) -> Result<CodegenState, CompilerErrorModel>
    decreases st.1.anim.len(),
{
    if st.1.anim.len() == 0 {
        Ok(st)
    } else {
        let pair = st.1.anim.last();
        let st1 = pop_anim(st);
        match texture_choice(st1, pair.1) {
            Err(e) => Err(e),
            Ok(st2) => match call_effect(st2, "loadImageTex"@, seq![ArgModel::IntReg("rdi"@)]) {
                Err(e) => Err(e),
                Ok(st3) => load_textures(push_reg(st3, decimal(st1.1.anim.len()), "rax"@, false)),
            },
        }
    }
}

/// The lines that turn the frame counter on top of the stack into the frame
/// number, as a double in `rdi`.
pub open spec fn frame_number_lines(st: CodegenState) -> CodegenState {
    let st1 = emit(st, INSTRUCTION::MOV, seq!["rcx"@, "[rsp]"@]);
    let st2 = emit(st1, INSTRUCTION::MOV, seq!["rdi"@, decimal(animation_frames())]);
    let st3 = emit(st2, INSTRUCTION::SUB, seq!["rdi"@, "rcx"@]);
    let st4 = emit(st3, INSTRUCTION::CVTSI2SD, seq!["xmm0"@, "rdi"@]);
    emit(st4, INSTRUCTION::MOVQ, seq!["rdi"@, "xmm0"@])
}

/// For each pending animation, top first: the position callback is called with
/// the frame number, and the shape is drawn at that position with its texture.
pub open spec fn draw_frames(st: CodegenState) -> Result<CodegenState, CompilerErrorModel>
    decreases st.1.anim.len(),
{
    if st.1.anim.len() == 0 {
        Ok(st)
    } else {
        let pair = st.1.anim.last();
        let st1 = frame_number_lines(pop_anim(st));
        match call_effect(st1, pair.0, seq![ArgModel::StrPtr("rdi"@)]) {
            Err(e) => Err(e),
            Ok(st2) => {
                let shape_name = decimal(st1.1.anim.len());
                if !st2.1.hidden.contains_key(shape_name) {
                    Err(CompilerErrorModel::MissingVar(shape_name))
                } else {
                    match call_effect(
                        st2,
                        "draw_shape"@,
                        seq![
                            ArgModel::StrPtr("rdi"@),
                            ArgModel::StrPtr("rsi"@),
                            ArgModel::IntStack(st2.1.hidden[shape_name]),
                        ],
                    ) {
                        Err(e) => Err(e),
                        Ok(st3) => draw_frames(st3),
                    }
                }
            },
        }
    }
}

/// `reg` pushed into a slot that no name is bound to.
pub open spec fn anon_push(st: CodegenState, reg: Seq<char>) -> CodegenState {
    (st.0.add_inst(INSTRUCTION::PUSH, seq![reg]), SymbolTableModel { allocs: st.1.allocs + 1, ..st.1 })
}

/// The top slot popped into `reg`.
pub open spec fn anon_pop(st: CodegenState, reg: Seq<char>) -> CodegenState {
    (st.0.add_inst(INSTRUCTION::POP, seq![reg]), SymbolTableModel { allocs: (st.1.allocs - 1) as nat, ..st.1 })
}

/// The end of the frame loop: the frame is shown, the counter is decremented
/// and the loop repeats while it is not zero; then the window is destroyed.
pub open spec fn finish_animation(st8: CodegenState) -> Result<CodegenState, CompilerErrorModel> {
    match call_effect(st8, "blit"@, seq![]) {
        Err(e) => Err(e),
        Ok(st9) => {
            let st10 = emit(anon_pop(st9, "rcx"@), INSTRUCTION::DEC, seq!["rcx"@]);
            let st11 = emit(anon_push(st10, "rcx"@), INSTRUCTION::JNZ, seq!["anim_loop"@]);
            call_effect(anon_pop(st11, "rcx"@), "destroy_window"@, seq![])
        },
    }
}

/// The state at the top of the frame loop, once the textures are loaded: the
/// animations are restored from the snapshot and the frame counter is pushed.
pub open spec fn frame_loop_start(st3: CodegenState) -> CodegenState {
    let st4 = (st3.0, SymbolTableModel {
        anim: st3.1.anim_saved.last(),
        anim_saved: st3.1.anim_saved.drop_last(),
        ..st3.1
    });
    let st5 = emit(st4, INSTRUCTION::MOV, seq!["rcx"@, decimal(animation_frames())]);
    let st6 = anon_push(st5, "rcx"@);
    (st6.0.add_line(LineModel::Label("anim_loop"@)), st6.1)
}

/// Everything after the textures are loaded.
pub open spec fn after_textures(st3: CodegenState) -> Result<CodegenState, CompilerErrorModel> {
    match draw_frames(frame_loop_start(st3)) {
        Err(e) => Err(e),
        Ok(st8) => finish_animation(st8),
    }
}

/// The state once the window is created and the animations are saved.
pub open spec fn snapshot_anims(st1: CodegenState) -> CodegenState {
    (st1.0, SymbolTableModel { anim_saved: st1.1.anim_saved.push(st1.1.anim), ..st1.1 })
}

/// The code of the animations: nothing when there are none; otherwise a window
/// is created, the textures are loaded, and a loop of `loop_count` frames draws
/// every animation and shows the frame; then the window is destroyed.
pub open spec fn animation_code(st: CodegenState) -> Result<CodegenState, CompilerErrorModel> {
    if st.1.anim.len() == 0 {
        Ok(st)
    } else {
        match call_effect(st, "create_window"@, seq![]) {
            Err(e) => Err(e),
            Ok(st1) => match load_textures(snapshot_anims(st1)) {
                Err(e) => Err(e),
                Ok(st3) => after_textures(st3),
            },
        }
    }
}

proof fn lemma_load_textures(st: CodegenState)
    ensures
        load_textures(st) matches Ok(st2) ==> {
            &&& st2.1.anim.len() == 0
            &&& st2.1.allocs == st.1.allocs + st.1.anim.len()
            &&& st2.1.visible == st.1.visible
            &&& st2.1.anim_saved == st.1.anim_saved
        },
    decreases st.1.anim.len(),
{
    if st.1.anim.len() > 0 {
        let pair = st.1.anim.last();
        let st1 = pop_anim(st);
        if let Ok(st2) = texture_choice(st1, pair.1) {
            if let Ok(st3) = call_effect(st2, "loadImageTex"@, seq![ArgModel::IntReg("rdi"@)]) {
                lemma_load_textures(push_reg(st3, decimal(st1.1.anim.len()), "rax"@, false));
            }
        }
    }
}

proof fn lemma_draw_frames(st: CodegenState)
    ensures
        draw_frames(st) matches Ok(st2) ==> {
            &&& st2.1.anim.len() == 0
            &&& st2.1.allocs == st.1.allocs
            &&& st2.1.visible == st.1.visible
            &&& st2.1.anim_saved == st.1.anim_saved
        },
    decreases st.1.anim.len(),
{
    if st.1.anim.len() > 0 {
        let pair = st.1.anim.last();
        let st1 = frame_number_lines(pop_anim(st));
        if let Ok(st2) = call_effect(st1, pair.0, seq![ArgModel::StrPtr("rdi"@)]) {
            let shape_name = decimal(st1.1.anim.len());
            if st2.1.hidden.contains_key(shape_name) {
                let args = seq![
                    ArgModel::StrPtr("rdi"@),
                    ArgModel::StrPtr("rsi"@),
                    ArgModel::IntStack(st2.1.hidden[shape_name]),
                ];
                if let Ok(st3) = call_effect(st2, "draw_shape"@, args) {
                    lemma_draw_frames(st3);
                }
            }
        }
    }
}

/// The animation code runs every pending animation: none is pending afterwards,
/// the snapshots are as they were, no program variable changes, and one slot
/// stays in use per animation (its texture).
pub proof fn lemma_animation_runs_all(st: CodegenState)
    ensures
        animation_code(st) matches Ok(st2) ==> {
            &&& st2.1.anim.len() == 0
            &&& st2.1.anim_saved == st.1.anim_saved
            &&& st2.1.allocs == st.1.allocs + st.1.anim.len()
            &&& st2.1.visible == st.1.visible
        },
{
    if st.1.anim.len() > 0 {
        if let Ok(st1) = call_effect(st, "create_window"@, seq![]) {
            let saved = snapshot_anims(st1);
            lemma_load_textures(saved);
            if let Ok(st3) = load_textures(saved) {
                let st7 = frame_loop_start(st3);
                lemma_draw_frames(st7);
            }
        }
    }
}

/// Emits the animation loop for the pending animations (see `animation_code`).
pub fn gen_animation(gen: &mut Generator, scope: &mut SymbolTable) -> (r: Result<(), CompilerErrors>)
    requires
        old(scope)@.wf(),
        stack_load(old(scope)@) + old(scope)@.anim.len() + 1 <= alloc_limit(),
    ensures
        match animation_code((old(gen)@, old(scope)@)) {
            Ok(st) => r is Ok && final(gen)@ == st.0 && final(scope)@ == st.1,
            Err(e) => r matches Err(x) && x@ == e,
        },
        final(scope)@.visible == old(scope)@.visible,
        final(scope)@.functions == old(scope)@.functions,
{
    if anim_stack_len(&scope.anim_stack) == 0 {
        return Ok(());
    }
    let loop_count: usize = 500;
    let no_args: [Args; 0] = [];
    proof {
        assert(args_view(no_args@) =~= Seq::<ArgModel>::empty());
    }
    let ghost st0: CodegenState = (gen@, scope@);
    call_with("create_window", &no_args, gen, scope)?;
    let ghost st1: CodegenState = (gen@, scope@);

    anim_stack_snapshot(&mut scope.anim_stack);
    let ghost saved: CodegenState = (gen@, scope@);
    assert(saved == snapshot_anims(st1));
    let ghost n = scope@.anim.len();
    while anim_stack_len(&scope.anim_stack) > 0
        invariant
            animation_code(st0) == (match load_textures(saved) {
                Err(e) => Err(e),
                Ok(st3) => after_textures(st3),
            }),
            st0 == (old(gen)@, old(scope)@),
            load_textures(saved) == load_textures((gen@, scope@)),
            scope@.wf(),
            scope@.allocs + scope@.anim.len() == saved.1.allocs + n,
            saved.1.allocs + n + n + 1 <= alloc_limit(),
            scope@.anim_saved == saved.1.anim_saved,
            scope@.visible == old(scope)@.visible,
            scope@.functions == old(scope)@.functions,
        decreases scope@.anim.len(),
    {
        let ghost cur: CodegenState = (gen@, scope@);
        let anim_fn = match anim_stack_pop(&mut scope.anim_stack) {
            Some(p) => p,
            None => {
                proof {
                    assert(false);
                }
                return Ok(());
            },
        };
        let ghost st_pop: CodegenState = (gen@, scope@);
        assert(st_pop == pop_anim(cur));
        assert(anim_fn@ == cur.1.anim.last());
        match &anim_fn.shape {
            Some(shape) => {
                let shape_args = [Args::Int(1)];
                assert(args_view(shape_args@) =~= seq![ArgModel::Int(1)]);
                match call_with(shape.as_str(), &shape_args, gen, scope) {
                    Ok(_) => {},
                    Err(e) => {
                        assert(load_textures(cur) == Err::<CodegenState, CompilerErrorModel>(e@));
                        return Err(e);
                    },
                }
            },
            None => {
                emit2(gen, INSTRUCTION::MOV, "rdi", "0");
            },
        }
        let ghost st2: CodegenState = (gen@, scope@);
        let tex_args = [Args::IntReg("rdi")];
        assert(args_view(tex_args@) =~= seq![ArgModel::IntReg("rdi"@)]);
        match call_with("loadImageTex", &tex_args, gen, scope) {
            Ok(_) => {},
            Err(e) => {
                assert(load_textures(cur) == Err::<CodegenState, CompilerErrorModel>(e@));
                return Err(e);
            },
        }
        let mut name = String::new();
        push_decimal(&mut name, anim_stack_len(&scope.anim_stack));
        proof {
            vstd::set_lib::lemma_set_insert_finite_iff(scope@.hidden.dom(), name@);
        }
        push_reg_to_stack(name.as_str(), &mut scope.hidden_stack, &mut scope.stack_alloc, gen, "rax");
    }
    let ghost st3: CodegenState = (gen@, scope@);
    anim_stack_restore(&mut scope.anim_stack);

    let mut count = String::new();
    push_decimal(&mut count, loop_count);
    emit2(gen, INSTRUCTION::MOV, "rcx", count.as_str());
    make_anonyomus_stack_alloc("rcx", scope, gen);
    gen.add_label(Label::from("anim_loop"));
    let ghost st7: CodegenState = (gen@, scope@);
    assert(st7 == frame_loop_start(st3));

    while anim_stack_len(&scope.anim_stack) > 0
        invariant
            animation_code(st0) == (match draw_frames(st7) {
                Err(e) => Err(e),
                Ok(st8) => finish_animation(st8),
            }),
            st0 == (old(gen)@, old(scope)@),
            draw_frames(st7) == draw_frames((gen@, scope@)),
            loop_count == 500,
            scope@.allocs == st7.1.allocs,
            scope@.hidden == st7.1.hidden,
            scope@.visible == st7.1.visible,
            scope@.anim_saved == st7.1.anim_saved,
            st7.1.wf(),
            st7.1.allocs > st7.1.hidden.dom().len(),
            st7.1.allocs <= alloc_limit(),
            st7.1.visible == old(scope)@.visible,
            st7.1.functions == old(scope)@.functions,
            scope@.functions == st7.1.functions,
        decreases scope@.anim.len(),
    {
        let ghost cur: CodegenState = (gen@, scope@);
        let anim_fn = match anim_stack_pop(&mut scope.anim_stack) {
            Some(p) => p,
            None => {
                proof {
                    assert(false);
                }
                return Ok(());
            },
        };
        let ghost st_pop: CodegenState = (gen@, scope@);
        assert(st_pop == pop_anim(cur));
        assert(anim_fn@ == cur.1.anim.last());
        emit2(gen, INSTRUCTION::MOV, "rcx", "[rsp]");
        let mut count = String::new();
        push_decimal(&mut count, loop_count);
        emit2(gen, INSTRUCTION::MOV, "rdi", count.as_str());
        emit2(gen, INSTRUCTION::SUB, "rdi", "rcx");
        emit2(gen, INSTRUCTION::CVTSI2SD, "xmm0", "rdi");
        emit2(gen, INSTRUCTION::MOVQ, "rdi", "xmm0");
        let ghost st1f: CodegenState = (gen@, scope@);
        assert(count@ == decimal(animation_frames()));
        assert(st1f.1 == frame_number_lines(pop_anim(cur)).1);
        assert(st1f.0 =~= frame_number_lines(pop_anim(cur)).0);
        assert(st1f == frame_number_lines(pop_anim(cur)));
        let xy_args = [Args::StrPtr("rdi")];
        assert(args_view(xy_args@) =~= seq![ArgModel::StrPtr("rdi"@)]);
        match call_with(anim_fn.xy.as_str(), &xy_args, gen, scope) {
            Ok(_) => {},
            Err(e) => {
                assert(draw_frames(cur) == Err::<CodegenState, CompilerErrorModel>(e@));
                return Err(e);
            },
        }
        let mut shape_name = String::new();
        push_decimal(&mut shape_name, anim_stack_len(&scope.anim_stack));
        let shape_offset = match scope.hidden_stack.get_stack_address(shape_name.as_str()) {
            Ok(o) => o,
            Err(e) => {
                assert(draw_frames(cur) == Err::<CodegenState, CompilerErrorModel>(e@));
                return Err(e);
            },
        };
        let draw_args = [Args::StrPtr("rdi"), Args::StrPtr("rsi"), Args::IntStack(shape_offset)];
        assert(args_view(draw_args@) =~= seq![
            ArgModel::StrPtr("rdi"@),
            ArgModel::StrPtr("rsi"@),
            ArgModel::IntStack(shape_offset),
        ]);
        match call_with("draw_shape", &draw_args, gen, scope) {
            Ok(_) => {},
            Err(e) => {
                assert(draw_frames(cur) == Err::<CodegenState, CompilerErrorModel>(e@));
                return Err(e);
            },
        }
    }

    call_with("blit", &no_args, gen, scope)?;
    pop_anoynomus_stack("rcx", scope, gen);
    emit1(gen, INSTRUCTION::DEC, "rcx");
    make_anonyomus_stack_alloc("rcx", scope, gen);
    emit1(gen, INSTRUCTION::JNZ, "anim_loop");
    pop_anoynomus_stack("rcx", scope, gen);

    call_with("destroy_window", &no_args, gen, scope)?;
    Ok(())
}

} // verus!
