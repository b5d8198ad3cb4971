pub mod input;
pub mod timing;
pub mod video;

use vstd::prelude::*;
use rand::Rng;

verus! {

use crate::input::{InputEvent, InputManager, InputState};
use crate::video::{DisplayManager, Resolution, ScreenState, res_height, res_width};

/// The three CHIP-8-family variants. The mode is fixed when a machine is
/// built and selects the quirk behaviour of a handful of opcodes.
#[derive(Clone, Copy, PartialEq, Eq, Structural, Debug)]
pub enum Mode {
    Chip8,
    SuperChip,
    XOChip,
}

/// Per-mode behaviour flags for the mode-sensitive opcodes, looked up once
/// per relevant opcode instead of re-testing the mode.
pub struct Quirks {
    /// Bitwise OR/AND/XOR additionally zero the flag register.
    pub bitwise_resets_flag: bool,
    /// Shift opcodes first copy the second register into the first.
    pub shift_copies_source: bool,
    /// The offset-jump opcode adds the register picked by the high nibble
    /// of its address instead of register 0.
    pub jump_offset_from_x: bool,
    /// Sprite rows and columns wrap around the framebuffer edges instead
    /// of being clipped.
    pub sprite_wraps: bool,
    /// Bulk register store/load advances the index register past the
    /// transferred block.
    pub transfer_advances_index: bool,
}

impl Mode {
    /// The quirk table row for this mode.
    pub open spec fn spec_quirks(self) -> Quirks {
        Quirks {
            bitwise_resets_flag: self is Chip8,
            shift_copies_source: !(self is SuperChip),
            jump_offset_from_x: self is SuperChip,
            sprite_wraps: self is XOChip,
            transfer_advances_index: !(self is SuperChip),
        }
    }

    /// Look up the behaviour flags that govern this mode's opcodes.
    pub fn quirks(self) -> (q: Quirks)
        ensures
            q == self.spec_quirks(),
    {
        Quirks {
            bitwise_resets_flag: self == Mode::Chip8,
            shift_copies_source: self != Mode::SuperChip,
            jump_offset_from_x: self == Mode::SuperChip,
            sprite_wraps: self == Mode::XOChip,
            transfer_advances_index: self != Mode::SuperChip,
        }
    }
}

/// A fatal condition that stops the run. Every error is typed and carries
/// what a report needs; none is retried.
#[derive(Clone, Copy, PartialEq, Eq, Structural, Debug)]
pub enum VmError {
    /// The opcode matches no known pattern, or is illegal for the active
    /// mode; carries the opcode and the address it was fetched from.
    Decode(u16, usize),
    /// A call would push past the sixteen stored return addresses.
    StackOverflow,
    /// A return was executed with an empty stack.
    StackUnderflow,
    /// The index register or the program counter addressed a byte outside
    /// the memory array.
    OutOfBounds,
}

/// The key-wait state machine: either the interpreter runs normally, or it
/// suspends fetching until a key release lands in the named register.
#[derive(Clone, Copy, PartialEq, Eq, Structural, Debug)]
pub enum KeyWait {
    Running,
    AwaitingRelease(usize),
}

/// The machine's size constants: memory bytes, registers, stack depth, and
/// where a loaded program starts.
pub const MEMORY_SIZE: usize = 4096;
pub const V_COUNT: usize = 16;
pub const ROM_START_ADDRESS: usize = 0x200;
pub const MAX_STACK_LEVELS: usize = 16;

/// The mathematical state of the whole machine.
#[verifier::ext_equal]
pub struct VmState {
    pub mode: Mode,
    pub mem: Seq<u8>,
    pub regs: Seq<u8>,
    pub index: u16,
    pub pc: int,
    pub stack: Seq<u16>,
    pub delay: u8,
    pub sound: u8,
    pub screen: ScreenState,
    pub input: InputState,
    pub waiting: KeyWait,
}

impl VmState {
    /// Memory, register file and stack have their fixed sizes, the program
    /// counter fits in sixteen bits, and a pending key wait names a
    /// register.
    pub open spec fn wf(self) -> bool {
        &&& self.mem.len() == MEMORY_SIZE
        &&& self.regs.len() == V_COUNT
        &&& self.stack.len() <= MAX_STACK_LEVELS
        &&& 0 <= self.pc <= 0xFFFF
        &&& self.screen.wf()
        &&& self.input.wf()
        &&& self.waiting matches KeyWait::AwaitingRelease(r) ==> r < V_COUNT
    }
}

/// The 16-bit big-endian instruction stored at the program counter.
pub open spec fn fetched(s: VmState) -> u16 {
    (s.mem[s.pc] * 0x100 + s.mem[s.pc + 1]) as u16
}

/// The first register index field of an opcode.
pub open spec fn decode_x(op: u16) -> int {
    (op as int / 0x100) % 0x10
}

/// The second register index field of an opcode.
pub open spec fn decode_y(op: u16) -> int {
    (op as int / 0x10) % 0x10
}

/// The 8-bit immediate field of an opcode.
pub open spec fn decode_kk(op: u16) -> u8 {
    (op % 0x100) as u8
}

/// The 12-bit address field of an opcode.
pub open spec fn decode_nnn(op: u16) -> int {
    op as int % 0x1000
}

/// The 4-bit nibble field of an opcode.
pub open spec fn decode_n(op: u16) -> int {
    op as int % 0x10
}

/// Register `x` set to `v`; nothing else changes.
pub open spec fn spec_store_reg(pre: VmState, x: int, v: u8) -> VmState {
    VmState { regs: pre.regs.update(x, v), ..pre }
}

/// The program counter moved to `pc`; nothing else changes.
pub open spec fn spec_set_pc(pre: VmState, pc: int) -> VmState {
    VmState { pc, ..pre }
}

/// The next instruction skipped when `cond` holds.
pub open spec fn spec_skip(pre: VmState, cond: bool) -> VmState {
    VmState { pc: pre.pc + (if cond { 2int } else { 0int }), ..pre }
}

/// `Vx += kk`, wrapping modulo 256.
pub open spec fn spec_add_imm(pre: VmState, x: int, kk: u8) -> VmState {
    spec_store_reg(pre, x, ((pre.regs[x] + kk) % 256) as u8)
}

/// Bitwise OR/AND/XOR write the combined value; in modes with the
/// flag-reset quirk the flag register is zeroed as a side effect.
pub open spec fn spec_bitwise(pre: VmState, x: int, combined: u8) -> VmState {
    if pre.mode.spec_quirks().bitwise_resets_flag {
        spec_store_reg(spec_store_reg(pre, x, combined), 15, 0)
    } else {
        spec_store_reg(pre, x, combined)
    }
}

/// `Vx += Vy` with the flag register receiving the carry: 1 exactly when
/// the unsigned sum exceeds 255, while `Vx` keeps the sum modulo 256.
pub open spec fn spec_add_reg(pre: VmState, x: int, y: int) -> VmState {
    let sum = pre.regs[x] + pre.regs[y];
    VmState {
        regs: pre.regs.update(x, (sum % 256) as u8).update(
            15,
            if sum > 255 {
                1u8
            } else {
                0u8
            },
        ),
        ..pre
    }
}

/// `Vx = minuend - subtrahend` wrapping modulo 256, with the flag register
/// receiving NOT borrow: 1 exactly when `minuend >= subtrahend`.
pub open spec fn spec_sub_reg(pre: VmState, x: int, minuend: u8, subtrahend: u8) -> VmState {
    VmState {
        regs: pre.regs.update(x, ((minuend + 256 - subtrahend) % 256) as u8).update(
            15,
            if minuend >= subtrahend {
                1u8
            } else {
                0u8
            },
        ),
        ..pre
    }
}

/// Shift right: the source is `Vy` in modes with the copy quirk, `Vx`
/// otherwise; `Vx` receives the source halved and the flag register the
/// bit shifted out.
pub open spec fn spec_shr(pre: VmState, x: int, y: int) -> VmState {
    let src = if pre.mode.spec_quirks().shift_copies_source {
        pre.regs[y]
    } else {
        pre.regs[x]
    };
    VmState { regs: pre.regs.update(x, src / 2).update(15, src % 2), ..pre }
}

/// Shift left: as for shift right, with `Vx` receiving the source doubled
/// modulo 256 and the flag register the high bit shifted out.
pub open spec fn spec_shl(pre: VmState, x: int, y: int) -> VmState {
    let src = if pre.mode.spec_quirks().shift_copies_source {
        pre.regs[y]
    } else {
        pre.regs[x]
    };
    VmState {
        regs: pre.regs.update(x, ((src * 2) % 256) as u8).update(15, src / 128),
        ..pre
    }
}

/// The index register set to `v`; nothing else changes.
pub open spec fn spec_set_index(pre: VmState, v: u16) -> VmState {
    VmState { index: v, ..pre }
}

/// Whether the key named by `Vx` is held: a value outside the hex pad
/// counts as not pressed.
pub open spec fn spec_key_pressed(pre: VmState, x: int) -> bool {
    pre.regs[x] < 16 && pre.input.keys[pre.regs[x] as int]
}

/// The delay and sound timers decremented once, with a floor at zero.
pub open spec fn spec_tick_timers(pre: VmState) -> VmState {
    VmState {
        delay: if pre.delay > 0 {
            (pre.delay - 1) as u8
        } else {
            0u8
        },
        sound: if pre.sound > 0 {
            (pre.sound - 1) as u8
        } else {
            0u8
        },
        ..pre
    }
}

/// One key-wait poll: the input tracker is asked for a released key and
/// begins (or keeps) watching for one; if a release was pending, its value
/// lands in the waiting register and the machine runs again. No
/// instruction is fetched and no other state changes.
pub open spec fn spec_wait(pre: VmState, reg: int) -> VmState {
    let polled = InputState { released: None, waiting: true, ..pre.input };
    match pre.input.released {
        Some(k) => VmState {
            regs: pre.regs.update(reg, k),
            waiting: KeyWait::Running,
            input: polled,
            ..pre
        },
        None => VmState { input: polled, ..pre },
    }
}

/// Every machine field but the screen is unchanged.
pub open spec fn eq_except_screen(pre: VmState, post: VmState) -> bool {
    &&& post.mode == pre.mode
    &&& post.mem == pre.mem
    &&& post.regs == pre.regs
    &&& post.index == pre.index
    &&& post.pc == pre.pc
    &&& post.stack == pre.stack
    &&& post.delay == pre.delay
    &&& post.sound == pre.sound
    &&& post.input == pre.input
    &&& post.waiting == pre.waiting
}

/// The decimal digits of `Vx` stored at the index register: hundreds,
/// tens, ones.
pub open spec fn spec_bcd(pre: VmState, x: int) -> VmState {
    let base = pre.index as int;
    let v = pre.regs[x];
    VmState {
        mem: pre.mem.update(base, v / 100).update(base + 1, (v % 100) / 10).update(
            base + 2,
            v % 10,
        ),
        ..pre
    }
}

/// Registers 0 through `x` stored at the index register; in modes with the
/// advance quirk the index register then moves past the block.
pub open spec fn spec_store_regs(pre: VmState, x: int) -> VmState {
    let base = pre.index as int;
    VmState {
        mem: Seq::new(
            pre.mem.len(),
            |i: int|
                if base <= i <= base + x {
                    pre.regs[i - base]
                } else {
                    pre.mem[i]
                },
        ),
        index: if pre.mode.spec_quirks().transfer_advances_index {
            (pre.index + x + 1) as u16
        } else {
            pre.index
        },
        ..pre
    }
}

/// Registers 0 through `x` loaded from the index register; in modes with
/// the advance quirk the index register then moves past the block.
pub open spec fn spec_load_regs(pre: VmState, x: int) -> VmState {
    let base = pre.index as int;
    VmState {
        regs: Seq::new(
            pre.regs.len(),
            |k: int|
                if 0 <= k <= x {
                    pre.mem[base + k]
                } else {
                    pre.regs[k]
                },
        ),
        index: if pre.mode.spec_quirks().transfer_advances_index {
            (pre.index + x + 1) as u16
        } else {
            pre.index
        },
        ..pre
    }
}

/// A drawing coordinate folded into the grid: `(base + offset) mod limit`.
pub open spec fn wrap_coord(base: int, offset: int, limit: int) -> int {
    (base + offset) % limit
}

/// A folded coordinate lands inside the grid.
pub proof fn lemma_wrap_coord_bounds(base: int, offset: int, limit: int)
    by (nonlinear_arith)
    requires
        0 <= base,
        0 <= offset,
        limit > 0,
    ensures
        0 <= wrap_coord(base, offset, limit) < limit,
{
}

/// Distinct offsets below the limit fold to distinct coordinates.
pub proof fn lemma_wrap_coord_injective(base: int, limit: int, o1: int, o2: int)
    by (nonlinear_arith)
    requires
        0 <= base < limit,
        0 <= o1 < limit,
        0 <= o2 < limit,
        o1 != o2,
    ensures
        wrap_coord(base, o1, limit) != wrap_coord(base, o2, limit),
{
}

/// The power of two that places sprite bit `j`, most significant first.
pub open spec fn bit_divisor(j: int) -> int {
    if j == 0 {
        128
    } else if j == 1 {
        64
    } else if j == 2 {
        32
    } else if j == 3 {
        16
    } else if j == 4 {
        8
    } else if j == 5 {
        4
    } else if j == 6 {
        2
    } else {
        1
    }
}

/// Bit `j` of a sprite row byte, most significant bit first.
pub open spec fn sprite_bit(b: u8, j: int) -> u8 {
    ((b as int / bit_divisor(j)) % 2) as u8
}

/// The sprite anchor column: `Vx` folded into the grid width.
pub open spec fn draw_anchor_x(pre: VmState, x: int) -> int {
    pre.regs[x] as int % pre.screen.width
}

/// The sprite anchor row: `Vy` folded into the grid height.
pub open spec fn draw_anchor_y(pre: VmState, y: int) -> int {
    pre.regs[y] as int % pre.screen.height
}

/// How many sprite rows are drawn: all `n` when the mode wraps, otherwise
/// those that fit between the anchor and the bottom edge.
pub open spec fn spec_vis_rows(pre: VmState, y: int, n: int) -> int {
    if pre.mode.spec_quirks().sprite_wraps {
        n
    } else if n <= pre.screen.height - draw_anchor_y(pre, y) {
        n
    } else {
        pre.screen.height - draw_anchor_y(pre, y)
    }
}

/// How many sprite bits of each row are drawn: all eight when the mode
/// wraps, otherwise those that fit between the anchor and the right edge.
pub open spec fn spec_vis_cols(pre: VmState, x: int) -> int {
    if pre.mode.spec_quirks().sprite_wraps {
        8
    } else if 8 <= pre.screen.width - draw_anchor_x(pre, x) {
        8
    } else {
        pre.screen.width - draw_anchor_x(pre, x)
    }
}

/// The column sprite bit `j` lands on.
pub open spec fn draw_target_x(pre: VmState, x: int, j: int) -> int {
    wrap_coord(draw_anchor_x(pre, x), j, pre.screen.width)
}

/// The row sprite row `i` lands on.
pub open spec fn draw_target_y(pre: VmState, y: int, i: int) -> int {
    wrap_coord(draw_anchor_y(pre, y), i, pre.screen.height)
}

/// The sprite row byte read for row `i`, starting at the index register.
pub open spec fn sprite_row(pre: VmState, i: int) -> u8 {
    pre.mem[pre.index + i]
}

/// Sprite cell (row `i`, bit `j`) collides: its target pixel is on and the
/// sprite bit is set, so drawing turns the pixel off.
pub open spec fn draw_collision_at(pre: VmState, x: int, y: int, i: int, j: int) -> bool {
    &&& pre.screen.pix(draw_target_x(pre, x, j), draw_target_y(pre, y, i)) == 1
    &&& sprite_bit(sprite_row(pre, i), j) == 1
}

/// Some sprite cell lexicographically before (row `i`, bit `j`) collides.
pub open spec fn draw_collides_before(pre: VmState, x: int, y: int, i: int, j: int) -> bool {
    exists|a: int, b: int|
        0 <= a && 0 <= b && ((a < i && b < spec_vis_cols(pre, x)) || (a == i && b < j))
            && #[trigger] draw_collision_at(pre, x, y, a, b)
}

/// Extending the lexicographic prefix by one cell adds exactly that
/// cell's collision.
pub proof fn lemma_collides_col_step(pre: VmState, x: int, y: int, i: int, j: int)
    requires
        0 <= i,
        0 <= j < spec_vis_cols(pre, x),
    ensures
        draw_collides_before(pre, x, y, i, j + 1) <==> (draw_collides_before(pre, x, y, i, j)
            || draw_collision_at(pre, x, y, i, j)),
{
    let vc = spec_vis_cols(pre, x);
    if draw_collides_before(pre, x, y, i, j + 1) {
        let (a, b) = choose|a: int, b: int|
            0 <= a && 0 <= b && ((a < i && b < vc) || (a == i && b < j + 1))
                && #[trigger] draw_collision_at(pre, x, y, a, b);
        if !(a == i && b == j) {
            assert(0 <= a && 0 <= b && ((a < i && b < vc) || (a == i && b < j))
                && draw_collision_at(pre, x, y, a, b));
        }
    }
    if draw_collides_before(pre, x, y, i, j) {
        let (a, b) = choose|a: int, b: int|
            0 <= a && 0 <= b && ((a < i && b < vc) || (a == i && b < j)) && #[trigger] draw_collision_at(
                pre,
                x,
                y,
                a,
                b,
            );
        assert(0 <= a && 0 <= b && ((a < i && b < vc) || (a == i && b < j + 1))
            && draw_collision_at(pre, x, y, a, b));
    }
    if draw_collision_at(pre, x, y, i, j) {
        assert(0 <= i && 0 <= j && ((i < i && j < vc) || (i == i && j < j + 1))
            && draw_collision_at(pre, x, y, i, j));
    }
}

/// Finishing a row is the same prefix as starting the next one.
pub proof fn lemma_collides_row_step(pre: VmState, x: int, y: int, i: int)
    requires
        0 <= i,
    ensures
        draw_collides_before(pre, x, y, i + 1, 0) <==> draw_collides_before(
            pre,
            x,
            y,
            i,
            spec_vis_cols(pre, x),
        ),
{
    let vc = spec_vis_cols(pre, x);
    if draw_collides_before(pre, x, y, i + 1, 0) {
        let (a, b) = choose|a: int, b: int|
            0 <= a && 0 <= b && ((a < i + 1 && b < vc) || (a == i + 1 && b < 0))
                && #[trigger] draw_collision_at(pre, x, y, a, b);
        assert(0 <= a && 0 <= b && ((a < i && b < vc) || (a == i && b < vc))
            && draw_collision_at(pre, x, y, a, b));
    }
    if draw_collides_before(pre, x, y, i, vc) {
        let (a, b) = choose|a: int, b: int|
            0 <= a && 0 <= b && ((a < i && b < vc) || (a == i && b < vc)) && #[trigger] draw_collision_at(
                pre,
                x,
                y,
                a,
                b,
            );
        assert(0 <= a && 0 <= b && ((a < i + 1 && b < vc) || (a == i + 1 && b < 0))
            && draw_collision_at(pre, x, y, a, b));
    }
}

/// Sprite cell (row `a`, bit `b`) was XORed onto its target pixel.
pub open spec fn draw_cell_done(pre: VmState, post: VmState, x: int, y: int, a: int, b: int) -> bool {
    post.screen.pix(draw_target_x(pre, x, b), draw_target_y(pre, y, a)) == (pre.screen.pix(
        draw_target_x(pre, x, b),
        draw_target_y(pre, y, a),
    ) ^ sprite_bit(sprite_row(pre, a), b))
}

/// Sprite cell (row `a`, bit `b`) has not been drawn yet: its target pixel
/// still holds the value drawing started from.
pub open spec fn draw_cell_pending(pre: VmState, cur: VmState, x: int, y: int, a: int, b: int) -> bool {
    cur.screen.pix(draw_target_x(pre, x, b), draw_target_y(pre, y, a)) == pre.screen.pix(
        draw_target_x(pre, x, b),
        draw_target_y(pre, y, a),
    )
}

/// Pixel (`tx`, `ty`) is the target of some visible sprite cell.
pub open spec fn draw_hit(pre: VmState, x: int, y: int, n: int, tx: int, ty: int) -> bool {
    exists|a: int, b: int|
        0 <= a < spec_vis_rows(pre, y, n) && 0 <= b < spec_vis_cols(pre, x) && #[trigger] draw_target_x(
            pre,
            x,
            b,
        ) == tx && #[trigger] draw_target_y(pre, y, a) == ty
}

/// The whole effect of drawing an `n`-row sprite anchored at (`Vx` mod
/// width, `Vy` mod height): every visible sprite cell is XORed onto its
/// target pixel, every other pixel keeps its value, the flag register
/// reports whether any visible cell turned a pixel off, and the surface is
/// dirty when anything was drawn.
pub open spec fn spec_draw_rel(pre: VmState, post: VmState, x: int, y: int, n: int) -> bool {
    let vr = spec_vis_rows(pre, y, n);
    let vc = spec_vis_cols(pre, x);
    &&& post.mode == pre.mode
    &&& post.mem == pre.mem
    &&& post.index == pre.index
    &&& post.pc == pre.pc
    &&& post.stack == pre.stack
    &&& post.delay == pre.delay
    &&& post.sound == pre.sound
    &&& post.input == pre.input
    &&& post.waiting == pre.waiting
    &&& post.regs == pre.regs.update(
        15,
        if draw_collides_before(pre, x, y, vr, 0) {
            1u8
        } else {
            0u8
        },
    )
    &&& post.screen.width == pre.screen.width
    &&& post.screen.height == pre.screen.height
    &&& post.screen.cells.len() == pre.screen.cells.len()
    &&& post.screen.dirty == (pre.screen.dirty || vr > 0)
    &&& forall|a: int, b: int|
        0 <= a < vr && 0 <= b < vc ==> #[trigger] draw_cell_done(pre, post, x, y, a, b)
    &&& forall|tx: int, ty: int|
        post.screen.in_range(tx, ty) && !draw_hit(pre, x, y, n, tx, ty)
            ==> post.screen.pix(tx, ty) == pre.screen.pix(tx, ty)
}

/// What executing one decoded instruction does: relates the machine state
/// after the fetch (`pre`, with the program counter already advanced) to
/// the state after the handler ran. `at` is the address the instruction
/// was fetched from, reported by a decode error.
pub open spec fn exec_rel(pre: VmState, op: u16, at: int, post: VmState, r: Result<
    (),
    VmError,
>) -> bool {
    let x = decode_x(op);
    let y = decode_y(op);
    let kk = decode_kk(op);
    let nnn = decode_nnn(op);
    let n = decode_n(op);
    let hi = op as int / 0x1000;
    let decode_err = r == Err::<(), VmError>(VmError::Decode(op, at as usize)) && post == pre;
    let extended = !(pre.mode is Chip8);
    if hi == 0 {
        if x != 0 {
            // a machine code routine: ignored by modern interpreters
            r is Ok && post == pre
        } else if y == 0xC {
            if extended {
                r is Ok && eq_except_screen(pre, post) && crate::video::screen_scrolled_down(
                    pre.screen,
                    post.screen,
                    n,
                )
            } else {
                decode_err
            }
        } else if y == 0xD {
            if extended {
                r is Ok && eq_except_screen(pre, post) && crate::video::screen_scrolled_up(
                    pre.screen,
                    post.screen,
                    n,
                )
            } else {
                decode_err
            }
        } else if y == 0xE {
            if n == 0 {
                r is Ok && eq_except_screen(pre, post) && crate::video::screen_cleared(
                    pre.screen,
                    post.screen,
                )
            } else if n == 0xE {
                if pre.stack.len() == 0 {
                    r == Err::<(), VmError>(VmError::StackUnderflow) && post == pre
                } else {
                    r is Ok && post == (VmState {
                        pc: pre.stack.last() as int,
                        stack: pre.stack.drop_last(),
                        ..pre
                    })
                }
            } else {
                decode_err
            }
        } else if y == 0xF {
            if n == 0xB {
                if extended {
                    r is Ok && eq_except_screen(pre, post) && crate::video::screen_scrolled_right(
                        pre.screen,
                        post.screen,
                    )
                } else {
                    decode_err
                }
            } else if n == 0xC {
                if extended {
                    r is Ok && eq_except_screen(pre, post) && crate::video::screen_scrolled_left(
                        pre.screen,
                        post.screen,
                    )
                } else {
                    decode_err
                }
            } else if n == 0xE {
                if extended {
                    r is Ok && eq_except_screen(pre, post) && post.screen.blank(Resolution::Low)
                        && !post.screen.dirty
                } else {
                    decode_err
                }
            } else if n == 0xF {
                if extended {
                    r is Ok && eq_except_screen(pre, post) && post.screen.blank(Resolution::High)
                        && !post.screen.dirty
                } else {
                    decode_err
                }
            } else {
                decode_err
            }
        } else {
            decode_err
        }
    } else if hi == 1 {
        r is Ok && post == spec_set_pc(pre, nnn)
    } else if hi == 2 {
        if pre.stack.len() < MAX_STACK_LEVELS {
            r is Ok && post == (VmState {
                pc: nnn,
                stack: pre.stack.push(pre.pc as u16),
                ..pre
            })
        } else {
            r == Err::<(), VmError>(VmError::StackOverflow) && post == pre
        }
    } else if hi == 3 {
        r is Ok && post == spec_skip(pre, pre.regs[x] == kk)
    } else if hi == 4 {
        r is Ok && post == spec_skip(pre, pre.regs[x] != kk)
    } else if hi == 5 {
        r is Ok && post == spec_skip(pre, pre.regs[x] == pre.regs[y])
    } else if hi == 6 {
        r is Ok && post == spec_store_reg(pre, x, kk)
    } else if hi == 7 {
        r is Ok && post == spec_add_imm(pre, x, kk)
    } else if hi == 8 {
        if n == 0 {
            r is Ok && post == spec_store_reg(pre, x, pre.regs[y])
        } else if n == 1 {
            r is Ok && post == spec_bitwise(pre, x, pre.regs[x] | pre.regs[y])
        } else if n == 2 {
            r is Ok && post == spec_bitwise(pre, x, pre.regs[x] & pre.regs[y])
        } else if n == 3 {
            r is Ok && post == spec_bitwise(pre, x, pre.regs[x] ^ pre.regs[y])
        } else if n == 4 {
            r is Ok && post == spec_add_reg(pre, x, y)
        } else if n == 5 {
            r is Ok && post == spec_sub_reg(pre, x, pre.regs[x], pre.regs[y])
        } else if n == 6 {
            r is Ok && post == spec_shr(pre, x, y)
        } else if n == 7 {
            r is Ok && post == spec_sub_reg(pre, x, pre.regs[y], pre.regs[x])
        } else if n == 0xE {
            r is Ok && post == spec_shl(pre, x, y)
        } else {
            decode_err
        }
    } else if hi == 9 {
        r is Ok && post == spec_skip(pre, pre.regs[x] != pre.regs[y])
    } else if hi == 0xA {
        r is Ok && post == spec_set_index(pre, nnn as u16)
    } else if hi == 0xB {
        r is Ok && post == spec_set_pc(
            pre,
            nnn + pre.regs[
                if pre.mode.spec_quirks().jump_offset_from_x {
                    x
                } else {
                    0int
                }
            ],
        )
    } else if hi == 0xC {
        r is Ok && exists|b: u8| post == spec_store_reg(pre, x, b & kk)
    } else if hi == 0xD {
        if pre.index + spec_vis_rows(pre, y, n) <= MEMORY_SIZE {
            r is Ok && spec_draw_rel(pre, post, x, y, n)
        } else {
            r == Err::<(), VmError>(VmError::OutOfBounds) && post == pre
        }
    } else if hi == 0xE {
        if kk == 0x9E {
            r is Ok && post == spec_skip(pre, spec_key_pressed(pre, x))
        } else if kk == 0xA1 {
            r is Ok && post == spec_skip(pre, !spec_key_pressed(pre, x))
        } else {
            decode_err
        }
    } else {
        if kk == 0x07 {
            r is Ok && post == spec_store_reg(pre, x, pre.delay)
        } else if kk == 0x0A {
            r is Ok && post == (VmState { waiting: KeyWait::AwaitingRelease(x as usize), ..pre })
        } else if kk == 0x15 {
            r is Ok && post == (VmState { delay: pre.regs[x], ..pre })
        } else if kk == 0x18 {
            r is Ok && post == (VmState { sound: pre.regs[x], ..pre })
        } else if kk == 0x1E {
            r is Ok && post == spec_set_index(pre, ((pre.index + pre.regs[x]) % 0x10000) as u16)
        } else if kk == 0x29 {
            r is Ok && post == spec_set_index(pre, (pre.regs[x] * 5) as u16)
        } else if kk == 0x33 {
            if pre.index + 2 < MEMORY_SIZE {
                r is Ok && post == spec_bcd(pre, x)
            } else {
                r == Err::<(), VmError>(VmError::OutOfBounds) && post == pre
            }
        } else if kk == 0x55 {
            if pre.index + x < MEMORY_SIZE {
                r is Ok && post == spec_store_regs(pre, x)
            } else {
                r == Err::<(), VmError>(VmError::OutOfBounds) && post == pre
            }
        } else if kk == 0x65 {
            if pre.index + x < MEMORY_SIZE {
                r is Ok && post == spec_load_regs(pre, x)
            } else {
                r == Err::<(), VmError>(VmError::OutOfBounds) && post == pre
            }
        } else {
            decode_err
        }
    }
}

/// What one scheduler cycle does. While a key wait is pending the cycle is
/// the wait poll and nothing is fetched; otherwise the instruction at the
/// program counter is fetched, the counter advances past it, and the
/// instruction executes as `exec_rel` says. A program counter at the
/// memory edge is an out-of-bounds error that changes nothing.
pub open spec fn step_rel(pre: VmState, post: VmState, r: Result<(), VmError>) -> bool {
    match pre.waiting {
        KeyWait::AwaitingRelease(reg) => r is Ok && post == spec_wait(pre, reg as int),
        KeyWait::Running => if pre.pc + 1 >= MEMORY_SIZE {
            r == Err::<(), VmError>(VmError::OutOfBounds) && post == pre
        } else {
            exec_rel(spec_set_pc(pre, pre.pc + 2), fetched(pre), pre.pc, post, r)
        },
    }
}

/// The byte of the built-in font for the glyphs 0 through F, five bytes
/// per glyph, stored at the base of memory.
pub open spec fn font_seq() -> Seq<u8> {
    seq![
        0xF0u8, 0x90, 0x90, 0x90, 0xF0,
        0x20, 0x60, 0x20, 0x20, 0x70,
        0xF0, 0x10, 0xF0, 0x80, 0xF0,
        0xF0, 0x10, 0xF0, 0x10, 0xF0,
        0x90, 0x90, 0xF0, 0x10, 0x10,
        0xF0, 0x80, 0xF0, 0x10, 0xF0,
        0xF0, 0x80, 0xF0, 0x90, 0xF0,
        0xF0, 0x10, 0x20, 0x40, 0x40,
        0xF0, 0x90, 0xF0, 0x90, 0xF0,
        0xF0, 0x90, 0xF0, 0x10, 0xF0,
        0xF0, 0x90, 0xF0, 0x90, 0x90,
        0xE0, 0x90, 0xE0, 0x90, 0xE0,
        0xF0, 0x80, 0x80, 0x80, 0xF0,
        0xE0, 0x90, 0x90, 0x90, 0xE0,
        0xF0, 0x80, 0xF0, 0x80, 0xF0,
        0xF0, 0x80, 0xF0, 0x80, 0x80,
    ]
}

/// The built-in glyph font as bytes.
fn font() -> (v: Vec<u8>)
    ensures
        v@ == font_seq(),
{
    let v: Vec<u8> = vec![
        0xF0u8, 0x90, 0x90, 0x90, 0xF0,
        0x20, 0x60, 0x20, 0x20, 0x70,
        0xF0, 0x10, 0xF0, 0x80, 0xF0,
        0xF0, 0x10, 0xF0, 0x10, 0xF0,
        0x90, 0x90, 0xF0, 0x10, 0x10,
        0xF0, 0x80, 0xF0, 0x10, 0xF0,
        0xF0, 0x80, 0xF0, 0x90, 0xF0,
        0xF0, 0x10, 0x20, 0x40, 0x40,
        0xF0, 0x90, 0xF0, 0x90, 0xF0,
        0xF0, 0x90, 0xF0, 0x10, 0xF0,
        0xF0, 0x90, 0xF0, 0x90, 0x90,
        0xE0, 0x90, 0xE0, 0x90, 0xE0,
        0xF0, 0x80, 0x80, 0x80, 0xF0,
        0xE0, 0x90, 0x90, 0x90, 0xE0,
        0xF0, 0x80, 0xF0, 0x80, 0xF0,
        0xF0, 0x80, 0xF0, 0x80, 0x80,
    ];
    proof {
        assert(v@ =~= font_seq());
    }
    v
}

/// A number below the modulus is its own remainder.
pub proof fn lemma_mod_identity(a: int, m: int)
    by (nonlinear_arith)
    requires
        0 <= a < m,
    ensures
        a % m == a,
{
}

/// Bit `j` of a sprite row byte, most significant bit first.
fn sprite_bit_at(b: u8, j: usize) -> (bit: u8)
    requires
        j < 8,
    ensures
        bit == sprite_bit(b, j as int),
        bit <= 1,
{
    match j {
        0 => b / 128,
        1 => (b / 64) % 2,
        2 => (b / 32) % 2,
        3 => (b / 16) % 2,
        4 => (b / 8) % 2,
        5 => (b / 4) % 2,
        6 => (b / 2) % 2,
        _ => b % 2,
    }
}

/// Relies on rand::thread_rng and rand::Rng::gen: draws one random byte.
/// Nothing is promised of the value.
#[verifier::external_body]
fn random_byte() -> u8 {
    rand::thread_rng().gen::<u8>()
}

/// The fetch-decode-execute machine: memory, register file, index
/// register, program counter, return stack, the two timers, the
/// framebuffer, the input tracker, and the key-wait state. The host feeds
/// input events and presents the framebuffer; everything else happens
/// here.
pub struct Chip8 {
    mode: Mode,
    memory: Vec<u8>,
    regs: Vec<u8>,
    index: u16,
    pc: usize,
    stack: Vec<u16>,
    delay_timer: u8,
    sound_timer: u8,
    /// The framebuffer; the host reads it to draw and calls `render`.
    pub display: DisplayManager,
    /// The input tracker; the host feeds pad events into it.
    pub input: InputManager,
    key_wait: KeyWait,
}

impl View for Chip8 {
    type V = VmState;

    closed spec fn view(&self) -> VmState {
        VmState {
            mode: self.mode,
            mem: self.memory@,
            regs: self.regs@,
            index: self.index,
            pc: self.pc as int,
            stack: self.stack@,
            delay: self.delay_timer,
            sound: self.sound_timer,
            screen: self.display@,
            input: self.input@,
            waiting: self.key_wait,
        }
    }
}

impl Chip8 {
    /// Builds a machine in the given mode from a full memory image: the
    /// font is copied over the base of memory, the rest of the image is
    /// kept as handed in, registers and timers start at zero, the program
    /// counter at the program start address, the stack empty, the screen
    /// blank at low resolution, and no key is held or awaited.
    pub fn new(mode: Mode, memory: Vec<u8>) -> (vm: Chip8)
        requires
            memory@.len() == MEMORY_SIZE,
        ensures
            vm@.wf(),
            vm@.mode == mode,
            vm@.mem.len() == MEMORY_SIZE,
            forall|i: int| 0 <= i < 80 ==> vm@.mem[i] == font_seq()[i],
            forall|i: int| 80 <= i < MEMORY_SIZE ==> vm@.mem[i] == memory@[i],
            vm@.regs.len() == V_COUNT,
            forall|i: int| 0 <= i < V_COUNT ==> vm@.regs[i] == 0,
            vm@.index == 0,
            vm@.pc == ROM_START_ADDRESS,
            vm@.stack == Seq::<u16>::empty(),
            vm@.delay == 0,
            vm@.sound == 0,
            vm@.screen.blank(Resolution::Low),
            !vm@.screen.dirty,
            forall|k: int| 0 <= k < 16 ==> !vm@.input.keys[k],
            vm@.input.released is None,
            !vm@.input.waiting,
            !vm@.input.quit,
            vm@.waiting == KeyWait::Running,
    {
        let mut memory = memory;
        let ghost image = memory@;
        let f = font();
        for i in 0..80usize
            invariant
                f@ == font_seq(),
                memory@.len() == MEMORY_SIZE,
                forall|k: int| 0 <= k < i ==> memory@[k] == font_seq()[k],
                forall|k: int| i <= k < MEMORY_SIZE ==> memory@[k] == image[k],
        {
            memory.set(i, f[i]);
        }
        let mut regs: Vec<u8> = Vec::new();
        for i in 0..V_COUNT
            invariant
                regs@.len() == i,
                forall|k: int| 0 <= k < i ==> regs@[k] == 0,
        {
            regs.push(0);
        }
        Chip8 {
            mode,
            memory,
            regs,
            index: 0,
            pc: ROM_START_ADDRESS,
            stack: Vec::new(),
            delay_timer: 0,
            sound_timer: 0,
            display: DisplayManager::new(Resolution::Low),
            input: InputManager::new(),
            key_wait: KeyWait::Running,
        }
    }

    /// Fetches the 16-bit big-endian instruction at the program counter
    /// and advances the counter past it; a counter pointing outside memory
    /// is an out-of-bounds error that leaves the machine unchanged.
    pub fn fetch_opcode(&mut self) -> (r: Result<u16, VmError>)
        requires
            old(self)@.wf(),
        ensures
            final(self)@.wf(),
            match r {
                Ok(op) => old(self)@.pc + 1 < MEMORY_SIZE && op == fetched(old(self)@) && final(self)@ == spec_set_pc(old(self)@, old(self)@.pc + 2),
                Err(e) => e == VmError::OutOfBounds && old(self)@.pc + 1 >= MEMORY_SIZE && final(self)@ == old(self)@,
            },
    {
        if self.pc + 1 >= MEMORY_SIZE {
            return Err(VmError::OutOfBounds);
        }
        let hi = self.memory[self.pc];
        let lo = self.memory[self.pc + 1];
        let opcode = (hi as u16) * 0x100 + (lo as u16);
        self.pc = self.pc + 2;
        proof {
            assert(self@ =~~= spec_set_pc(old(self)@, old(self)@.pc + 2));
        }
        Ok(opcode)
    }

    /// Decrements the delay and sound timers once, flooring at zero, and
    /// reports whether the sound timer was running, which is when the tone
    /// should be audible during the coming frame.
    pub fn update_timers(&mut self) -> (sound_active: bool)
        requires
            old(self)@.wf(),
        ensures
            final(self)@.wf(),
            final(self)@ == spec_tick_timers(old(self)@),
            sound_active == (old(self)@.sound > 0),
    {
        let sound_active = self.sound_timer > 0;
        if self.delay_timer > 0 {
            self.delay_timer = self.delay_timer - 1;
        }
        if self.sound_timer > 0 {
            self.sound_timer = self.sound_timer - 1;
        }
        proof {
            assert(self@ =~~= spec_tick_timers(old(self)@));
        }
        sound_active
    }

    /// Jump to location `addr`.
    pub fn op_1nnn(&mut self, addr: u16)
        requires
            old(self)@.wf(),
        ensures
            final(self)@.wf(),
            final(self)@ == spec_set_pc(old(self)@, addr as int),
    {
        self.pc = addr as usize;
        proof {
            assert(self@ =~~= spec_set_pc(old(self)@, addr as int));
        }
    }

    /// Call the subroutine at `addr`: the current program counter is
    /// pushed and execution jumps; a full stack is an error that leaves
    /// the machine unchanged.
    pub fn op_2nnn(&mut self, addr: u16) -> (r: Result<(), VmError>)
        requires
            old(self)@.wf(),
        ensures
            final(self)@.wf(),
            match r {
                Ok(()) => old(self)@.stack.len() < MAX_STACK_LEVELS && final(self)@ == (VmState {
                    pc: addr as int,
                    stack: old(self)@.stack.push(old(self)@.pc as u16),
                    ..old(self)@
                }),
                Err(e) => e == VmError::StackOverflow && old(self)@.stack.len()
                    == MAX_STACK_LEVELS && final(self)@ == old(self)@,
            },
    {
        if self.stack.len() >= MAX_STACK_LEVELS {
            return Err(VmError::StackOverflow);
        }
        self.stack.push(self.pc as u16);
        self.pc = addr as usize;
        proof {
            assert(self@ =~~= (VmState {
                pc: addr as int,
                stack: old(self)@.stack.push((old(self)@.pc as int) as u16),
                ..old(self)@
            }));
        }
        Ok(())
    }

    /// Return from a subroutine: the program counter is popped off the
    /// stack; an empty stack is an error that leaves the machine
    /// unchanged.
    pub fn op_00ee(&mut self) -> (r: Result<(), VmError>)
        requires
            old(self)@.wf(),
        ensures
            final(self)@.wf(),
            match r {
                Ok(()) => old(self)@.stack.len() > 0 && final(self)@ == (VmState {
                    pc: old(self)@.stack.last() as int,
                    stack: old(self)@.stack.drop_last(),
                    ..old(self)@
                }),
                Err(e) => e == VmError::StackUnderflow && old(self)@.stack.len() == 0 && final(self)@ == old(self)@,
            },
    {
        match self.stack.pop() {
            Some(addr) => {
                self.pc = addr as usize;
                proof {
                    assert(old(self)@.stack.subrange(0, old(self)@.stack.len() - 1)
                        =~= old(self)@.stack.drop_last());
                    assert(self@ =~~= (VmState {
                        pc: old(self)@.stack.last() as int,
                        stack: old(self)@.stack.drop_last(),
                        ..old(self)@
                    }));
                }
                Ok(())
            },
            None => Err(VmError::StackUnderflow),
        }
    }

    /// Skip the next instruction when `Vx` equals the immediate.
    pub fn op_3xkk(&mut self, x: usize, kk: u8)
        requires
            old(self)@.wf(),
            x < V_COUNT,
            old(self)@.pc + 2 <= 0xFFFF,
        ensures
            final(self)@.wf(),
            final(self)@ == spec_skip(old(self)@, old(self)@.regs[x as int] == kk),
    {
        if self.regs[x] == kk {
            self.pc = self.pc + 2;
        }
        proof {
            assert(self@ =~~= spec_skip(old(self)@, old(self)@.regs[x as int] == kk));
        }
    }

    /// Skip the next instruction when `Vx` differs from the immediate.
    pub fn op_4xkk(&mut self, x: usize, kk: u8)
        requires
            old(self)@.wf(),
            x < V_COUNT,
            old(self)@.pc + 2 <= 0xFFFF,
        ensures
            final(self)@.wf(),
            final(self)@ == spec_skip(old(self)@, old(self)@.regs[x as int] != kk),
    {
        if self.regs[x] != kk {
            self.pc = self.pc + 2;
        }
        proof {
            assert(self@ =~~= spec_skip(old(self)@, old(self)@.regs[x as int] != kk));
        }
    }

    /// Skip the next instruction when `Vx` equals `Vy`.
    pub fn op_5xy0(&mut self, x: usize, y: usize)
        requires
            old(self)@.wf(),
            x < V_COUNT,
            y < V_COUNT,
            old(self)@.pc + 2 <= 0xFFFF,
        ensures
            final(self)@.wf(),
            final(self)@ == spec_skip(
                old(self)@,
                old(self)@.regs[x as int] == old(self)@.regs[y as int],
            ),
    {
        if self.regs[x] == self.regs[y] {
            self.pc = self.pc + 2;
        }
        proof {
            assert(self@ =~~= spec_skip(
                old(self)@,
                old(self)@.regs[x as int] == old(self)@.regs[y as int],
            ));
        }
    }

    /// Skip the next instruction when `Vx` differs from `Vy`.
    pub fn op_9xy0(&mut self, x: usize, y: usize)
        requires
            old(self)@.wf(),
            x < V_COUNT,
            y < V_COUNT,
            old(self)@.pc + 2 <= 0xFFFF,
        ensures
            final(self)@.wf(),
            final(self)@ == spec_skip(
                old(self)@,
                old(self)@.regs[x as int] != old(self)@.regs[y as int],
            ),
    {
        if self.regs[x] != self.regs[y] {
            self.pc = self.pc + 2;
        }
        proof {
            assert(self@ =~~= spec_skip(
                old(self)@,
                old(self)@.regs[x as int] != old(self)@.regs[y as int],
            ));
        }
    }

    /// Set `Vx` to the immediate.
    pub fn op_6xkk(&mut self, x: usize, kk: u8)
        requires
            old(self)@.wf(),
            x < V_COUNT,
        ensures
            final(self)@.wf(),
            final(self)@ == spec_store_reg(old(self)@, x as int, kk),
    {
        self.regs.set(x, kk);
        proof {
            assert(self@ =~~= spec_store_reg(old(self)@, x as int, kk));
        }
    }

    /// Add the immediate to `Vx`, wrapping modulo 256 with no flag change.
    pub fn op_7xkk(&mut self, x: usize, kk: u8)
        requires
            old(self)@.wf(),
            x < V_COUNT,
        ensures
            final(self)@.wf(),
            final(self)@ == spec_add_imm(old(self)@, x as int, kk),
    {
        let sum = self.regs[x] as u16 + kk as u16;
        self.regs.set(x, (sum % 256) as u8);
        proof {
            assert(self@ =~~= spec_add_imm(old(self)@, x as int, kk));
        }
    }

    /// Set `Vx` to `Vy`.
    pub fn op_8xy0(&mut self, x: usize, y: usize)
        requires
            old(self)@.wf(),
            x < V_COUNT,
            y < V_COUNT,
        ensures
            final(self)@.wf(),
            final(self)@ == spec_store_reg(old(self)@, x as int, old(self)@.regs[y as int]),
    {
        let v = self.regs[y];
        self.regs.set(x, v);
        proof {
            assert(self@ =~~= spec_store_reg(old(self)@, x as int, old(self)@.regs[y as int]));
        }
    }

    /// `Vx |= Vy`; in classic mode the flag register is zeroed as an
    /// observable side effect, in the extended modes it is left exactly as
    /// it was.
    pub fn op_8xy1(&mut self, x: usize, y: usize)
        requires
            old(self)@.wf(),
            x < V_COUNT,
            y < V_COUNT,
        ensures
            final(self)@.wf(),
            final(self)@ == spec_bitwise(
                old(self)@,
                x as int,
                old(self)@.regs[x as int] | old(self)@.regs[y as int],
            ),
    {
        let v = self.regs[x] | self.regs[y];
        self.regs.set(x, v);
        if self.mode.quirks().bitwise_resets_flag {
            self.regs.set(15, 0);
        }
        proof {
            assert(self@ =~~= spec_bitwise(
                old(self)@,
                x as int,
                old(self)@.regs[x as int] | old(self)@.regs[y as int],
            ));
        }
    }

    /// `Vx &= Vy`, with the same per-mode flag side effect as OR.
    pub fn op_8xy2(&mut self, x: usize, y: usize)
        requires
            old(self)@.wf(),
            x < V_COUNT,
            y < V_COUNT,
        ensures
            final(self)@.wf(),
            final(self)@ == spec_bitwise(
                old(self)@,
                x as int,
                old(self)@.regs[x as int] & old(self)@.regs[y as int],
            ),
    {
        let v = self.regs[x] & self.regs[y];
        self.regs.set(x, v);
        if self.mode.quirks().bitwise_resets_flag {
            self.regs.set(15, 0);
        }
        proof {
            assert(self@ =~~= spec_bitwise(
                old(self)@,
                x as int,
                old(self)@.regs[x as int] & old(self)@.regs[y as int],
            ));
        }
    }

    /// `Vx ^= Vy`, with the same per-mode flag side effect as OR.
    pub fn op_8xy3(&mut self, x: usize, y: usize)
        requires
            old(self)@.wf(),
            x < V_COUNT,
            y < V_COUNT,
        ensures
            final(self)@.wf(),
            final(self)@ == spec_bitwise(
                old(self)@,
                x as int,
                old(self)@.regs[x as int] ^ old(self)@.regs[y as int],
            ),
    {
        let v = self.regs[x] ^ self.regs[y];
        self.regs.set(x, v);
        if self.mode.quirks().bitwise_resets_flag {
            self.regs.set(15, 0);
        }
        proof {
            assert(self@ =~~= spec_bitwise(
                old(self)@,
                x as int,
                old(self)@.regs[x as int] ^ old(self)@.regs[y as int],
            ));
        }
    }

    /// `Vx += Vy`: the flag register becomes 1 exactly when the unsigned
    /// sum exceeds 255, and `Vx` keeps the sum modulo 256.
    pub fn op_8xy4(&mut self, x: usize, y: usize)
        requires
            old(self)@.wf(),
            x < V_COUNT,
            y < V_COUNT,
        ensures
            final(self)@.wf(),
            final(self)@ == spec_add_reg(old(self)@, x as int, y as int),
            final(self)@.regs[15] == (if old(self)@.regs[x as int] + old(self)@.regs[y as int]
                > 255 {
                1u8
            } else {
                0u8
            }),
            x != 15 ==> final(self)@.regs[x as int] == (old(self)@.regs[x as int] + old(
                self,
            )@.regs[y as int]) % 256,
    {
        let sum = self.regs[x] as u16 + self.regs[y] as u16;
        self.regs.set(x, (sum % 256) as u8);
        self.regs.set(15, if sum > 255 { 1 } else { 0 });
        proof {
            assert(self@ =~~= spec_add_reg(old(self)@, x as int, y as int));
        }
    }

    /// `Vx -= Vy` wrapping modulo 256: the flag register becomes 1 exactly
    /// when no borrow occurred, that is when `Vx >= Vy`, in every mode.
    pub fn op_8xy5(&mut self, x: usize, y: usize)
        requires
            old(self)@.wf(),
            x < V_COUNT,
            y < V_COUNT,
        ensures
            final(self)@.wf(),
            final(self)@ == spec_sub_reg(
                old(self)@,
                x as int,
                old(self)@.regs[x as int],
                old(self)@.regs[y as int],
            ),
            final(self)@.regs[15] == (if old(self)@.regs[x as int] >= old(self)@.regs[y as int] {
                1u8
            } else {
                0u8
            }),
    {
        let vx = self.regs[x];
        let vy = self.regs[y];
        let diff = if vx >= vy {
            vx - vy
        } else {
            ((vx as u16 + 256 - vy as u16) % 256) as u8
        };
        self.regs.set(x, diff);
        self.regs.set(15, if vx >= vy { 1 } else { 0 });
        proof {
            assert(self@ =~~= spec_sub_reg(
                old(self)@,
                x as int,
                old(self)@.regs[x as int],
                old(self)@.regs[y as int],
            ));
        }
    }

    /// `Vx = Vy - Vx` wrapping modulo 256: the flag register becomes 1
    /// exactly when no borrow occurred, that is when `Vy >= Vx`.
    pub fn op_8xy7(&mut self, x: usize, y: usize)
        requires
            old(self)@.wf(),
            x < V_COUNT,
            y < V_COUNT,
        ensures
            final(self)@.wf(),
            final(self)@ == spec_sub_reg(
                old(self)@,
                x as int,
                old(self)@.regs[y as int],
                old(self)@.regs[x as int],
            ),
    {
        let vx = self.regs[x];
        let vy = self.regs[y];
        let diff = if vy >= vx {
            vy - vx
        } else {
            ((vy as u16 + 256 - vx as u16) % 256) as u8
        };
        self.regs.set(x, diff);
        self.regs.set(15, if vy >= vx { 1 } else { 0 });
        proof {
            assert(self@ =~~= spec_sub_reg(
                old(self)@,
                x as int,
                old(self)@.regs[y as int],
                old(self)@.regs[x as int],
            ));
        }
    }

    /// Shift right by one: classic and extended-memory modes first copy
    /// `Vy` into `Vx`; the flag register receives the bit shifted out.
    pub fn op_8xy6(&mut self, x: usize, y: usize)
        requires
            old(self)@.wf(),
            x < V_COUNT,
            y < V_COUNT,
        ensures
            final(self)@.wf(),
            final(self)@ == spec_shr(old(self)@, x as int, y as int),
    {
        let src = if self.mode.quirks().shift_copies_source {
            self.regs[y]
        } else {
            self.regs[x]
        };
        self.regs.set(x, src / 2);
        self.regs.set(15, src % 2);
        proof {
            assert(self@ =~~= spec_shr(old(self)@, x as int, y as int));
        }
    }

    /// Shift left by one: classic and extended-memory modes first copy
    /// `Vy` into `Vx`; the flag register receives the bit shifted out.
    pub fn op_8xye(&mut self, x: usize, y: usize)
        requires
            old(self)@.wf(),
            x < V_COUNT,
            y < V_COUNT,
        ensures
            final(self)@.wf(),
            final(self)@ == spec_shl(old(self)@, x as int, y as int),
    {
        let src = if self.mode.quirks().shift_copies_source {
            self.regs[y]
        } else {
            self.regs[x]
        };
        let doubled = (src as u16 * 2) % 256;
        self.regs.set(x, doubled as u8);
        self.regs.set(15, src / 128);
        proof {
            assert(self@ =~~= spec_shl(old(self)@, x as int, y as int));
        }
    }

    /// Set the index register to `addr`.
    pub fn op_annn(&mut self, addr: u16)
        requires
            old(self)@.wf(),
        ensures
            final(self)@.wf(),
            final(self)@ == spec_set_index(old(self)@, addr),
    {
        self.index = addr;
        proof {
            assert(self@ =~~= spec_set_index(old(self)@, addr));
        }
    }

    /// Jump to `addr` plus an offset register: register 0 in classic and
    /// extended-memory modes, the register named by the address's high
    /// nibble in the super variant.
    pub fn op_bnnn(&mut self, x: usize, addr: u16)
        requires
            old(self)@.wf(),
            x < V_COUNT,
            addr < 0x1000,
        ensures
            final(self)@.wf(),
            final(self)@ == spec_set_pc(
                old(self)@,
                addr + old(self)@.regs[
                    if old(self)@.mode.spec_quirks().jump_offset_from_x {
                        x as int
                    } else {
                        0int
                    }
                ],
            ),
    {
        let offset_reg = if self.mode.quirks().jump_offset_from_x {
            self.regs[x]
        } else {
            self.regs[0]
        };
        self.pc = addr as usize + offset_reg as usize;
        proof {
            assert(self@ =~~= spec_set_pc(
                old(self)@,
                addr + old(self)@.regs[
                    if old(self)@.mode.spec_quirks().jump_offset_from_x {
                        x as int
                    } else {
                        0int
                    }
                ],
            ));
        }
    }

    /// Store `byte & kk` into `Vx`: the verified tail of the random-number
    /// opcode, exact for every byte the generator hands back.
    pub fn apply_random(&mut self, x: usize, byte: u8, kk: u8)
        requires
            old(self)@.wf(),
            x < V_COUNT,
        ensures
            final(self)@.wf(),
            final(self)@ == spec_store_reg(old(self)@, x as int, byte & kk),
    {
        self.regs.set(x, byte & kk);
        proof {
            assert(self@ =~~= spec_store_reg(old(self)@, x as int, byte & kk));
        }
    }

    /// Set `Vx` to a random byte masked with `kk`. The byte is drawn
    /// outside the machine, so all that holds of every outcome is that
    /// some byte was masked and stored.
    pub fn op_cxkk(&mut self, x: usize, kk: u8)
        requires
            old(self)@.wf(),
            x < V_COUNT,
        ensures
            final(self)@.wf(),
            exists|b: u8| final(self)@ == spec_store_reg(old(self)@, x as int, b & kk),
    {
        let byte = random_byte();
        self.apply_random(x, byte, kk);
        proof {
            assert(self@ == spec_store_reg(old(self)@, x as int, byte & kk));
        }
    }

    /// Skip the next instruction when the key named by `Vx` is pressed; a
    /// value outside the hex pad counts as not pressed.
    pub fn op_ex9e(&mut self, x: usize)
        requires
            old(self)@.wf(),
            x < V_COUNT,
            old(self)@.pc + 2 <= 0xFFFF,
        ensures
            final(self)@.wf(),
            final(self)@ == spec_skip(old(self)@, spec_key_pressed(old(self)@, x as int)),
    {
        let key = self.regs[x];
        let pressed = if key < 16 {
            self.input.is_key_pressed(key)
        } else {
            false
        };
        if pressed {
            self.pc = self.pc + 2;
        }
        proof {
            assert(self@ =~~= spec_skip(old(self)@, spec_key_pressed(old(self)@, x as int)));
        }
    }

    /// Skip the next instruction when the key named by `Vx` is not
    /// pressed; a value outside the hex pad counts as not pressed.
    pub fn op_exa1(&mut self, x: usize)
        requires
            old(self)@.wf(),
            x < V_COUNT,
            old(self)@.pc + 2 <= 0xFFFF,
        ensures
            final(self)@.wf(),
            final(self)@ == spec_skip(old(self)@, !spec_key_pressed(old(self)@, x as int)),
    {
        let key = self.regs[x];
        let pressed = if key < 16 {
            self.input.is_key_pressed(key)
        } else {
            false
        };
        if !pressed {
            self.pc = self.pc + 2;
        }
        proof {
            assert(self@ =~~= spec_skip(old(self)@, !spec_key_pressed(old(self)@, x as int)));
        }
    }

    /// Set `Vx` to the delay timer value.
    pub fn op_fx07(&mut self, x: usize)
        requires
            old(self)@.wf(),
            x < V_COUNT,
        ensures
            final(self)@.wf(),
            final(self)@ == spec_store_reg(old(self)@, x as int, old(self)@.delay),
    {
        let v = self.delay_timer;
        self.regs.set(x, v);
        proof {
            assert(self@ =~~= spec_store_reg(old(self)@, x as int, old(self)@.delay));
        }
    }

    /// Enter the key-wait state: from now on cycles poll for a key
    /// release destined for `Vx` instead of fetching instructions.
    pub fn op_fx0a(&mut self, x: usize)
        requires
            old(self)@.wf(),
            x < V_COUNT,
        ensures
            final(self)@.wf(),
            final(self)@ == (VmState { waiting: KeyWait::AwaitingRelease(x), ..old(self)@ }),
    {
        self.key_wait = KeyWait::AwaitingRelease(x);
        proof {
            assert(self@ =~~= (VmState { waiting: KeyWait::AwaitingRelease(x), ..old(self)@ }));
        }
    }

    /// Set the delay timer to `Vx`.
    pub fn op_fx15(&mut self, x: usize)
        requires
            old(self)@.wf(),
            x < V_COUNT,
        ensures
            final(self)@.wf(),
            final(self)@ == (VmState { delay: old(self)@.regs[x as int], ..old(self)@ }),
    {
        self.delay_timer = self.regs[x];
        proof {
            assert(self@ =~~= (VmState { delay: old(self)@.regs[x as int], ..old(self)@ }));
        }
    }

    /// Set the sound timer to `Vx`: the sole trigger point for audio.
    pub fn op_fx18(&mut self, x: usize)
        requires
            old(self)@.wf(),
            x < V_COUNT,
        ensures
            final(self)@.wf(),
            final(self)@ == (VmState { sound: old(self)@.regs[x as int], ..old(self)@ }),
    {
        self.sound_timer = self.regs[x];
        proof {
            assert(self@ =~~= (VmState { sound: old(self)@.regs[x as int], ..old(self)@ }));
        }
    }

    /// Add `Vx` to the index register, 16-bit with no overflow check.
    pub fn op_fx1e(&mut self, x: usize)
        requires
            old(self)@.wf(),
            x < V_COUNT,
        ensures
            final(self)@.wf(),
            final(self)@ == spec_set_index(
                old(self)@,
                ((old(self)@.index + old(self)@.regs[x as int]) % 0x10000) as u16,
            ),
    {
        let v = self.regs[x];
        self.index = self.index.wrapping_add(v as u16);
        proof {
            assert(self@ =~~= spec_set_index(
                old(self)@,
                ((old(self)@.index + old(self)@.regs[x as int]) % 0x10000) as u16,
            ));
        }
    }

    /// Point the index register at the font glyph for the digit in `Vx`:
    /// each glyph is five bytes from the base of memory.
    pub fn op_fx29(&mut self, x: usize)
        requires
            old(self)@.wf(),
            x < V_COUNT,
        ensures
            final(self)@.wf(),
            final(self)@ == spec_set_index(old(self)@, (old(self)@.regs[x as int] * 5) as u16),
    {
        let v = self.regs[x];
        self.index = v as u16 * 5;
        proof {
            assert(self@ =~~= spec_set_index(old(self)@, (old(self)@.regs[x as int] * 5) as u16));
        }
    }

    /// Jump to a machine code routine: used only on the historical
    /// machines and ignored by modern interpreters.
    pub fn op_0nnn(&mut self, _addr: u16)
        requires
            old(self)@.wf(),
        ensures
            final(self)@.wf(),
            final(self)@ == old(self)@,
    {
    }

    /// Clear the display.
    pub fn op_00e0(&mut self)
        requires
            old(self)@.wf(),
        ensures
            final(self)@.wf(),
            eq_except_screen(old(self)@, final(self)@),
            crate::video::screen_cleared(old(self)@.screen, final(self)@.screen),
    {
        self.display.clear();
    }

    /// Scroll the display down by `n` pixel rows.
    pub fn op_00cn(&mut self, n: u8)
        requires
            old(self)@.wf(),
            n < 16,
        ensures
            final(self)@.wf(),
            eq_except_screen(old(self)@, final(self)@),
            crate::video::screen_scrolled_down(old(self)@.screen, final(self)@.screen, n as int),
    {
        self.display.scroll_down(n as usize);
    }

    /// Scroll the display up by `n` pixel rows.
    pub fn op_00dn(&mut self, n: u8)
        requires
            old(self)@.wf(),
            n < 16,
        ensures
            final(self)@.wf(),
            eq_except_screen(old(self)@, final(self)@),
            crate::video::screen_scrolled_up(old(self)@.screen, final(self)@.screen, n as int),
    {
        self.display.scroll_up(n as usize);
    }

    /// Scroll the display right by four pixel columns.
    pub fn op_00fb(&mut self)
        requires
            old(self)@.wf(),
        ensures
            final(self)@.wf(),
            eq_except_screen(old(self)@, final(self)@),
            crate::video::screen_scrolled_right(old(self)@.screen, final(self)@.screen),
    {
        self.display.scroll_right();
    }

    /// Scroll the display left by four pixel columns.
    pub fn op_00fc(&mut self)
        requires
            old(self)@.wf(),
        ensures
            final(self)@.wf(),
            eq_except_screen(old(self)@, final(self)@),
            crate::video::screen_scrolled_left(old(self)@.screen, final(self)@.screen),
    {
        self.display.scroll_left();
    }

    /// Switch to low resolution: the grid is discarded for a blank 64 by
    /// 32 one.
    pub fn op_00fe(&mut self)
        requires
            old(self)@.wf(),
        ensures
            final(self)@.wf(),
            eq_except_screen(old(self)@, final(self)@),
            final(self)@.screen.blank(Resolution::Low),
            !final(self)@.screen.dirty,
    {
        self.display = DisplayManager::new(Resolution::Low);
    }

    /// Switch to high resolution: the grid is discarded for a blank 128 by
    /// 64 one.
    pub fn op_00ff(&mut self)
        requires
            old(self)@.wf(),
        ensures
            final(self)@.wf(),
            eq_except_screen(old(self)@, final(self)@),
            final(self)@.screen.blank(Resolution::High),
            !final(self)@.screen.dirty,
    {
        self.display = DisplayManager::new(Resolution::High);
    }

    /// Store the decimal digits of `Vx` at the index register: hundreds,
    /// tens, ones; writes past the memory end are an out-of-bounds error
    /// that leaves the machine unchanged.
    pub fn op_fx33(&mut self, x: usize) -> (r: Result<(), VmError>)
        requires
            old(self)@.wf(),
            x < V_COUNT,
        ensures
            final(self)@.wf(),
            match r {
                Ok(()) => old(self)@.index + 2 < MEMORY_SIZE && final(self)@ == spec_bcd(
                    old(self)@,
                    x as int,
                ),
                Err(e) => e == VmError::OutOfBounds && old(self)@.index + 2 >= MEMORY_SIZE
                    && final(self)@ == old(self)@,
            },
    {
        let base = self.index as usize;
        if base + 2 >= MEMORY_SIZE {
            return Err(VmError::OutOfBounds);
        }
        let v = self.regs[x];
        self.memory.set(base, v / 100);
        self.memory.set(base + 1, (v % 100) / 10);
        self.memory.set(base + 2, v % 10);
        proof {
            assert(self@ =~~= spec_bcd(old(self)@, x as int));
        }
        Ok(())
    }

    /// Store registers 0 through `x` in memory starting at the index
    /// register; classic and extended-memory modes then advance the index
    /// register past the block. Writes past the memory end are an
    /// out-of-bounds error that leaves the machine unchanged.
    pub fn op_fx55(&mut self, x: usize) -> (r: Result<(), VmError>)
        requires
            old(self)@.wf(),
            x < V_COUNT,
        ensures
            final(self)@.wf(),
            match r {
                Ok(()) => old(self)@.index + x < MEMORY_SIZE && final(self)@ == spec_store_regs(
                    old(self)@,
                    x as int,
                ),
                Err(e) => e == VmError::OutOfBounds && old(self)@.index + x >= MEMORY_SIZE
                    && final(self)@ == old(self)@,
            },
    {
        let base = self.index as usize;
        if base + x >= MEMORY_SIZE {
            return Err(VmError::OutOfBounds);
        }
        let ghost pre = self@;
        for offset in 0..x + 1
            invariant
                pre.wf(),
                x < V_COUNT,
                0 <= offset <= x + 1,
                base == pre.index,
                base + x < MEMORY_SIZE,
                self@.mem.len() == MEMORY_SIZE,
                self@.mode == pre.mode,
                self@.regs == pre.regs,
                self@.index == pre.index,
                self@.pc == pre.pc,
                self@.stack == pre.stack,
                self@.delay == pre.delay,
                self@.sound == pre.sound,
                self@.screen == pre.screen,
                self@.input == pre.input,
                self@.waiting == pre.waiting,
                forall|i: int| base <= i < base + offset ==> self@.mem[i] == pre.regs[i - base],
                forall|i: int|
                    0 <= i < MEMORY_SIZE && !(base <= i < base + offset) ==> self@.mem[i]
                        == pre.mem[i],
        {
            let v = self.regs[offset];
            self.memory.set(base + offset, v);
        }
        if self.mode.quirks().transfer_advances_index {
            self.index = self.index + x as u16 + 1;
        }
        proof {
            assert(self@.mem =~= spec_store_regs(pre, x as int).mem);
            assert(self@ =~~= spec_store_regs(pre, x as int));
        }
        Ok(())
    }

    /// Load registers 0 through `x` from memory starting at the index
    /// register; classic and extended-memory modes then advance the index
    /// register past the block. Reads past the memory end are an
    /// out-of-bounds error that leaves the machine unchanged.
    pub fn op_fx65(&mut self, x: usize) -> (r: Result<(), VmError>)
        requires
            old(self)@.wf(),
            x < V_COUNT,
        ensures
            final(self)@.wf(),
            match r {
                Ok(()) => old(self)@.index + x < MEMORY_SIZE && final(self)@ == spec_load_regs(
                    old(self)@,
                    x as int,
                ),
                Err(e) => e == VmError::OutOfBounds && old(self)@.index + x >= MEMORY_SIZE
                    && final(self)@ == old(self)@,
            },
    {
        let base = self.index as usize;
        if base + x >= MEMORY_SIZE {
            return Err(VmError::OutOfBounds);
        }
        let ghost pre = self@;
        for offset in 0..x + 1
            invariant
                pre.wf(),
                x < V_COUNT,
                0 <= offset <= x + 1,
                base == pre.index,
                base + x < MEMORY_SIZE,
                self@.regs.len() == V_COUNT,
                self@.mode == pre.mode,
                self@.mem == pre.mem,
                self@.index == pre.index,
                self@.pc == pre.pc,
                self@.stack == pre.stack,
                self@.delay == pre.delay,
                self@.sound == pre.sound,
                self@.screen == pre.screen,
                self@.input == pre.input,
                self@.waiting == pre.waiting,
                forall|k: int| 0 <= k < offset ==> self@.regs[k] == pre.mem[base + k],
                forall|k: int| offset <= k < V_COUNT ==> self@.regs[k] == pre.regs[k],
        {
            let v = self.memory[base + offset];
            self.regs.set(offset, v);
        }
        if self.mode.quirks().transfer_advances_index {
            self.index = self.index + x as u16 + 1;
        }
        proof {
            assert(self@.regs =~= spec_load_regs(pre, x as int).regs);
            assert(self@ =~~= spec_load_regs(pre, x as int));
        }
        Ok(())
    }

    /// Display an `n`-row sprite from the index register at (`Vx`, `Vy`),
    /// setting the flag register to 1 exactly when a drawn bit turned a
    /// pixel off. The extended-memory mode wraps rows and bits around the
    /// edges; the other modes clip them. Sprite reads past the memory end
    /// are an out-of-bounds error that leaves the machine unchanged.
    pub fn op_dxyn(&mut self, x: usize, y: usize, n: u8) -> (r: Result<(), VmError>)
        requires
            old(self)@.wf(),
            x < V_COUNT,
            y < V_COUNT,
            n < 16,
        ensures
            final(self)@.wf(),
            match r {
                Ok(()) => old(self)@.index + spec_vis_rows(old(self)@, y as int, n as int)
                    <= MEMORY_SIZE && spec_draw_rel(
                    old(self)@,
                    final(self)@,
                    x as int,
                    y as int,
                    n as int,
                ),
                Err(e) => e == VmError::OutOfBounds && old(self)@.index + spec_vis_rows(
                    old(self)@,
                    y as int,
                    n as int,
                ) > MEMORY_SIZE && final(self)@ == old(self)@,
            },
    {
        let ghost pre = self@;
        let w = self.display.width();
        let h = self.display.height();
        let xc = self.regs[x] as usize % w;
        let yc = self.regs[y] as usize % h;
        let wrap = self.mode.quirks().sprite_wraps;
        let n_us = n as usize;
        let vr = if wrap {
            n_us
        } else if n_us <= h - yc {
            n_us
        } else {
            h - yc
        };
        let vc = if wrap {
            8
        } else if 8 <= w - xc {
            8
        } else {
            w - xc
        };
        let base = self.index as usize;
        if base + vr > MEMORY_SIZE {
            return Err(VmError::OutOfBounds);
        }
        self.regs.set(15, 0);
        proof {
            assert(!draw_collides_before(pre, x as int, y as int, 0, 0));
            assert(self@.regs =~= pre.regs.update(15, 0u8));
        }
        for i in 0..vr
            invariant
                pre.wf(),
                x < V_COUNT,
                y < V_COUNT,
                n < 16,
                0 <= i <= vr,
                w as int == pre.screen.width,
                h as int == pre.screen.height,
                xc as int == draw_anchor_x(pre, x as int),
                yc as int == draw_anchor_y(pre, y as int),
                xc < w,
                yc < h,
                vr as int == spec_vis_rows(pre, y as int, n as int),
                vc as int == spec_vis_cols(pre, x as int),
                vr as int <= pre.screen.height,
                1 <= vc as int <= pre.screen.width,
                vc <= 8,
                base == pre.index,
                base + vr <= MEMORY_SIZE,
                self@.mode == pre.mode,
                self@.mem == pre.mem,
                self@.index == pre.index,
                self@.pc == pre.pc,
                self@.stack == pre.stack,
                self@.delay == pre.delay,
                self@.sound == pre.sound,
                self@.input == pre.input,
                self@.waiting == pre.waiting,
                self@.screen.wf(),
                self@.screen.width == pre.screen.width,
                self@.screen.height == pre.screen.height,
                self@.screen.cells.len() == pre.screen.cells.len(),
                self@.screen.dirty == (pre.screen.dirty || i > 0),
                self@.regs == pre.regs.update(
                    15,
                    if draw_collides_before(pre, x as int, y as int, i as int, 0) {
                        1u8
                    } else {
                        0u8
                    },
                ),
                forall|a: int, b: int|
                    0 <= a < i && 0 <= b < vc ==> #[trigger] draw_cell_done(
                        pre,
                        self@,
                        x as int,
                        y as int,
                        a,
                        b,
                    ),
                forall|a: int, b: int|
                    i <= a < vr && 0 <= b < vc ==> #[trigger] draw_cell_pending(
                        pre,
                        self@,
                        x as int,
                        y as int,
                        a,
                        b,
                    ),
                forall|tx: int, ty: int|
                    self@.screen.in_range(tx, ty) && !draw_hit(
                        pre,
                        x as int,
                        y as int,
                        n as int,
                        tx,
                        ty,
                    ) ==> self@.screen.pix(tx, ty) == pre.screen.pix(tx, ty),
        {
            let byte = self.memory[base + i];
            let ty = (yc + i) % h;
            proof {
                assert(byte == sprite_row(pre, i as int));
                assert(ty as int == draw_target_y(pre, y as int, i as int));
                lemma_wrap_coord_bounds(yc as int, i as int, h as int);
            }
            for j in 0..vc
                invariant
                    pre.wf(),
                    x < V_COUNT,
                    y < V_COUNT,
                    n < 16,
                    0 <= i < vr,
                    0 <= j <= vc,
                    w as int == pre.screen.width,
                    h as int == pre.screen.height,
                    xc as int == draw_anchor_x(pre, x as int),
                    yc as int == draw_anchor_y(pre, y as int),
                    xc < w,
                    yc < h,
                    vr as int == spec_vis_rows(pre, y as int, n as int),
                    vc as int == spec_vis_cols(pre, x as int),
                    vr as int <= pre.screen.height,
                    1 <= vc as int <= pre.screen.width,
                    vc <= 8,
                    base == pre.index,
                    base + vr <= MEMORY_SIZE,
                    byte == sprite_row(pre, i as int),
                    ty as int == draw_target_y(pre, y as int, i as int),
                    ty < h,
                    self@.mode == pre.mode,
                    self@.mem == pre.mem,
                    self@.index == pre.index,
                    self@.pc == pre.pc,
                    self@.stack == pre.stack,
                    self@.delay == pre.delay,
                    self@.sound == pre.sound,
                    self@.input == pre.input,
                    self@.waiting == pre.waiting,
                    self@.screen.wf(),
                    self@.screen.width == pre.screen.width,
                    self@.screen.height == pre.screen.height,
                    self@.screen.cells.len() == pre.screen.cells.len(),
                    self@.screen.dirty == (pre.screen.dirty || i > 0 || j > 0),
                    self@.regs == pre.regs.update(
                        15,
                        if draw_collides_before(pre, x as int, y as int, i as int, j as int) {
                            1u8
                        } else {
                            0u8
                        },
                    ),
                    forall|a: int, b: int|
                        (0 <= a < i && 0 <= b < vc) || (a == i && 0 <= b < j)
                            ==> #[trigger] draw_cell_done(pre, self@, x as int, y as int, a, b),
                    forall|a: int, b: int|
                        (i < a < vr && 0 <= b < vc) || (a == i && j <= b < vc)
                            ==> #[trigger] draw_cell_pending(pre, self@, x as int, y as int, a, b),
                    forall|tx: int, ty2: int|
                        self@.screen.in_range(tx, ty2) && !draw_hit(
                            pre,
                            x as int,
                            y as int,
                            n as int,
                            tx,
                            ty2,
                        ) ==> self@.screen.pix(tx, ty2) == pre.screen.pix(tx, ty2),
            {
                let tx = (xc + j) % w;
                let bit = sprite_bit_at(byte, j);
                let ghost cur = self@;
                proof {
                    assert(tx as int == draw_target_x(pre, x as int, j as int));
                    lemma_wrap_coord_bounds(xc as int, j as int, w as int);
                    lemma_mod_identity(tx as int, w as int);
                    lemma_mod_identity(ty as int, h as int);
                }
                let col = self.display.set_pixel(tx, ty, bit);
                if col == 1 {
                    self.regs.set(15, 1);
                }
                proof {
                    let gx = x as int;
                    let gy = y as int;
                    let gi = i as int;
                    let gj = j as int;
                    crate::video::lemma_cell_update(
                        cur.screen.cells,
                        w as int,
                        h as int,
                        tx as int,
                        ty as int,
                        cur.screen.pix(tx as int, ty as int) ^ bit,
                    );
                    assert(self@.screen.pix(tx as int, ty as int) == (cur.screen.pix(
                        tx as int,
                        ty as int,
                    ) ^ bit));
                    assert forall|cx: int, cy: int|
                        0 <= cx < pre.screen.width && 0 <= cy < pre.screen.height && !(cx
                            == tx as int && cy == ty as int) implies self@.screen.pix(cx, cy)
                        == cur.screen.pix(cx, cy) by {
                        assert(crate::video::cell_at(self@.screen.cells, w as int, cx, cy)
                            == crate::video::cell_at(cur.screen.cells, w as int, cx, cy));
                    }
                    // targets of all other visible cells differ from this one
                    assert forall|a: int, b: int|
                        0 <= a < vr && 0 <= b < vc && !(a == gi && b == gj) implies !(
                        draw_target_x(pre, gx, b) == tx as int && draw_target_y(pre, gy, a)
                            == ty as int) by {
                        if a != gi {
                            lemma_wrap_coord_injective(yc as int, h as int, a, gi);
                        } else {
                            lemma_wrap_coord_injective(xc as int, w as int, b, gj);
                        }
                    }
                    // the drawn cell is done
                    assert(draw_cell_pending(pre, cur, gx, gy, gi, gj));
                    assert(draw_cell_done(pre, self@, gx, gy, gi, gj));
                    // previously done cells stay done, later cells stay pending
                    assert forall|a: int, b: int|
                        (0 <= a < gi && 0 <= b < vc) || (a == gi && 0 <= b < gj + 1) implies #[trigger] draw_cell_done(
                        pre,
                        self@,
                        gx,
                        gy,
                        a,
                        b,
                    ) by {
                        lemma_wrap_coord_bounds(xc as int, b, w as int);
                        lemma_wrap_coord_bounds(yc as int, a, h as int);
                        if !(a == gi && b == gj) {
                            assert(draw_cell_done(pre, cur, gx, gy, a, b));
                            assert(self@.screen.pix(
                                draw_target_x(pre, gx, b),
                                draw_target_y(pre, gy, a),
                            ) == cur.screen.pix(
                                draw_target_x(pre, gx, b),
                                draw_target_y(pre, gy, a),
                            ));
                        }
                    }
                    assert forall|a: int, b: int|
                        (gi < a < vr && 0 <= b < vc) || (a == gi && gj + 1 <= b < vc) implies #[trigger] draw_cell_pending(
                        pre,
                        self@,
                        gx,
                        gy,
                        a,
                        b,
                    ) by {
                        lemma_wrap_coord_bounds(xc as int, b, w as int);
                        lemma_wrap_coord_bounds(yc as int, a, h as int);
                        assert(draw_cell_pending(pre, cur, gx, gy, a, b));
                        assert(self@.screen.pix(
                            draw_target_x(pre, gx, b),
                            draw_target_y(pre, gy, a),
                        ) == cur.screen.pix(draw_target_x(pre, gx, b), draw_target_y(pre, gy, a)));
                    }
                    // pixels no visible cell targets keep their value
                    assert(draw_hit(pre, gx, gy, n as int, tx as int, ty as int));
                    assert forall|px: int, py: int|
                        self@.screen.in_range(px, py) && !draw_hit(pre, gx, gy, n as int, px, py)
                            implies self@.screen.pix(px, py) == pre.screen.pix(px, py) by {
                        assert(!(px == tx as int && py == ty as int));
                        assert(cur.screen.pix(px, py) == pre.screen.pix(px, py));
                    }
                    // collision flag tracks the extended prefix
                    lemma_collides_col_step(pre, gx, gy, gi, gj);
                    assert(col == 1 <==> draw_collision_at(pre, gx, gy, gi, gj));
                    if col == 1 {
                        assert(self@.regs =~= pre.regs.update(15, 1u8));
                    }
                    assert(self@.regs == pre.regs.update(
                        15,
                        if draw_collides_before(pre, gx, gy, gi, gj + 1) {
                            1u8
                        } else {
                            0u8
                        },
                    ));
                }
            }
            proof {
                lemma_collides_row_step(pre, x as int, y as int, i as int);
            }
        }
        proof {
            assert(spec_draw_rel(pre, self@, x as int, y as int, n as int));
        }
        Ok(())
    }

    /// One key-wait poll: asks the input tracker for a released key; if
    /// one was pending its value lands in the waiting register and the
    /// machine runs again. No instruction is fetched.
    pub fn wait_for_next_key(&mut self, reg: usize)
        requires
            old(self)@.wf(),
            reg < V_COUNT,
        ensures
            final(self)@.wf(),
            final(self)@ == spec_wait(old(self)@, reg as int),
    {
        match self.input.get_next_released_key() {
            Some(val) => {
                self.regs.set(reg, val);
                self.key_wait = KeyWait::Running;
            },
            None => {},
        }
        proof {
            assert(self@.input =~= spec_wait(old(self)@, reg as int).input);
            assert(self@ =~~= spec_wait(old(self)@, reg as int));
        }
    }

    /// Decodes the fixed bit fields of `opcode` and dispatches to the
    /// matching handler; an opcode that matches no pattern, or that is
    /// illegal for the active mode, is a fatal decode error reporting the
    /// opcode and the address it was fetched from.
    pub fn execute_opcode(&mut self, opcode: u16) -> (r: Result<(), VmError>)
        requires
            old(self)@.wf(),
            2 <= old(self)@.pc,
            old(self)@.pc + 2 <= 0xFFFF,
        ensures
            final(self)@.wf(),
            exec_rel(old(self)@, opcode, old(self)@.pc - 2, final(self)@, r),
    {
        let at = self.pc - 2;
        let x = ((opcode as usize) / 0x100) % 0x10;
        let y = ((opcode as usize) / 0x10) % 0x10;
        let kk = (opcode % 0x100) as u8;
        let nnn = opcode % 0x1000;
        let n = (opcode % 0x10) as u8;
        let hi = opcode / 0x1000;
        let extended = self.mode != Mode::Chip8;
        if hi == 0 {
            if x != 0 {
                self.op_0nnn(nnn);
                Ok(())
            } else if y == 0xC {
                if extended {
                    self.op_00cn(n);
                    Ok(())
                } else {
                    Err(VmError::Decode(opcode, at))
                }
            } else if y == 0xD {
                if extended {
                    self.op_00dn(n);
                    Ok(())
                } else {
                    Err(VmError::Decode(opcode, at))
                }
            } else if y == 0xE {
                if n == 0 {
                    self.op_00e0();
                    Ok(())
                } else if n == 0xE {
                    self.op_00ee()
                } else {
                    Err(VmError::Decode(opcode, at))
                }
            } else if y == 0xF {
                if n == 0xB {
                    if extended {
                        self.op_00fb();
                        Ok(())
                    } else {
                        Err(VmError::Decode(opcode, at))
                    }
                } else if n == 0xC {
                    if extended {
                        self.op_00fc();
                        Ok(())
                    } else {
                        Err(VmError::Decode(opcode, at))
                    }
                } else if n == 0xE {
                    if extended {
                        self.op_00fe();
                        Ok(())
                    } else {
                        Err(VmError::Decode(opcode, at))
                    }
                } else if n == 0xF {
                    if extended {
                        self.op_00ff();
                        Ok(())
                    } else {
                        Err(VmError::Decode(opcode, at))
                    }
                } else {
                    Err(VmError::Decode(opcode, at))
                }
            } else {
                Err(VmError::Decode(opcode, at))
            }
        } else if hi == 1 {
            self.op_1nnn(nnn);
            Ok(())
        } else if hi == 2 {
            self.op_2nnn(nnn)
        } else if hi == 3 {
            self.op_3xkk(x, kk);
            Ok(())
        } else if hi == 4 {
            self.op_4xkk(x, kk);
            Ok(())
        } else if hi == 5 {
            self.op_5xy0(x, y);
            Ok(())
        } else if hi == 6 {
            self.op_6xkk(x, kk);
            Ok(())
        } else if hi == 7 {
            self.op_7xkk(x, kk);
            Ok(())
        } else if hi == 8 {
            if n == 0 {
                self.op_8xy0(x, y);
                Ok(())
            } else if n == 1 {
                self.op_8xy1(x, y);
                Ok(())
            } else if n == 2 {
                self.op_8xy2(x, y);
                Ok(())
            } else if n == 3 {
                self.op_8xy3(x, y);
                Ok(())
            } else if n == 4 {
                self.op_8xy4(x, y);
                Ok(())
            } else if n == 5 {
                self.op_8xy5(x, y);
                Ok(())
            } else if n == 6 {
                self.op_8xy6(x, y);
                Ok(())
            } else if n == 7 {
                self.op_8xy7(x, y);
                Ok(())
            } else if n == 0xE {
                self.op_8xye(x, y);
                Ok(())
            } else {
                Err(VmError::Decode(opcode, at))
            }
        } else if hi == 9 {
            self.op_9xy0(x, y);
            Ok(())
        } else if hi == 0xA {
            self.op_annn(nnn);
            Ok(())
        } else if hi == 0xB {
            self.op_bnnn(x, nnn);
            Ok(())
        } else if hi == 0xC {
            self.op_cxkk(x, kk);
            Ok(())
        } else if hi == 0xD {
            self.op_dxyn(x, y, n)
        } else if hi == 0xE {
            if kk == 0x9E {
                self.op_ex9e(x);
                Ok(())
            } else if kk == 0xA1 {
                self.op_exa1(x);
                Ok(())
            } else {
                Err(VmError::Decode(opcode, at))
            }
        } else {
            if kk == 0x07 {
                self.op_fx07(x);
                Ok(())
            } else if kk == 0x0A {
                self.op_fx0a(x);
                Ok(())
            } else if kk == 0x15 {
                self.op_fx15(x);
                Ok(())
            } else if kk == 0x18 {
                self.op_fx18(x);
                Ok(())
            } else if kk == 0x1E {
                self.op_fx1e(x);
                Ok(())
            } else if kk == 0x29 {
                self.op_fx29(x);
                Ok(())
            } else if kk == 0x33 {
                self.op_fx33(x)
            } else if kk == 0x55 {
                self.op_fx55(x)
            } else if kk == 0x65 {
                self.op_fx65(x)
            } else {
                Err(VmError::Decode(opcode, at))
            }
        }
    }

    /// One scheduler cycle: while a key wait is pending the cycle only
    /// polls for the awaited release and fetches nothing; otherwise it
    /// fetches the instruction at the program counter, advances the
    /// counter past it, and executes it. A fatal error is handed back to
    /// the caller, which stops the run.
    pub fn emulate_cycle(&mut self) -> (r: Result<(), VmError>)
        requires
            old(self)@.wf(),
        ensures
            final(self)@.wf(),
            step_rel(old(self)@, final(self)@, r),
    {
        match self.key_wait {
            KeyWait::AwaitingRelease(reg) => {
                self.wait_for_next_key(reg);
                Ok(())
            },
            KeyWait::Running => {
                match self.fetch_opcode() {
                    Ok(opcode) => self.execute_opcode(opcode),
                    Err(e) => Err(e),
                }
            },
        }
    }

    /// The value of general-purpose register `i`.
    pub fn register(&self, i: usize) -> (v: u8)
        requires
            self@.wf(),
            i < V_COUNT,
        ensures
            v == self@.regs[i as int],
    {
        self.regs[i]
    }

    /// The program counter.
    pub fn program_counter(&self) -> (pc: usize)
        ensures
            pc as int == self@.pc,
    {
        self.pc
    }

    /// The index register.
    pub fn index_register(&self) -> (v: u16)
        ensures
            v == self@.index,
    {
        self.index
    }

    /// The byte stored at `addr`.
    pub fn memory_byte(&self, addr: usize) -> (b: u8)
        requires
            self@.wf(),
            addr < MEMORY_SIZE,
        ensures
            b == self@.mem[addr as int],
    {
        self.memory[addr]
    }

    /// The delay timer value.
    pub fn delay(&self) -> (v: u8)
        ensures
            v == self@.delay,
    {
        self.delay_timer
    }

    /// The sound timer value.
    pub fn sound(&self) -> (v: u8)
        ensures
            v == self@.sound,
    {
        self.sound_timer
    }

    /// How many return addresses are stored.
    pub fn stack_depth(&self) -> (d: usize)
        ensures
            d as int == self@.stack.len(),
    {
        self.stack.len()
    }

    /// The key-wait state.
    pub fn key_wait_state(&self) -> (k: KeyWait)
        ensures
            k == self@.waiting,
    {
        self.key_wait
    }
}

/// In classic mode a bitwise OR/AND/XOR zeroes the flag register as an
/// observable side effect; in the two extended modes it leaves the flag
/// register exactly as it was, as long as the opcode does not name the
/// flag register itself as its destination.
pub proof fn lemma_bitwise_flag_effect(pre: VmState, x: int, combined: u8)
    requires
        pre.wf(),
        0 <= x < V_COUNT,
    ensures
        pre.mode is Chip8 ==> spec_bitwise(pre, x, combined).regs[15] == 0,
        !(pre.mode is Chip8) && x != 15 ==> spec_bitwise(pre, x, combined).regs[15] == pre.regs[15],
{
}

/// A resolution switch to high resolution and back to low yields a
/// framebuffer of the machine's original low-resolution dimensions, fully
/// cleared. `s0` to `s1` is the switch up, `s1` to `s2` the switch down.
pub proof fn lemma_resolution_round_trip(s0: VmState, s1: VmState, s2: VmState)
    requires
        s0.screen.width == res_width(Resolution::Low),
        s0.screen.height == res_height(Resolution::Low),
        eq_except_screen(s0, s1),
        s1.screen.blank(Resolution::High),
        eq_except_screen(s1, s2),
        s2.screen.blank(Resolution::Low),
    ensures
        s2.screen.width == s0.screen.width,
        s2.screen.height == s0.screen.height,
        forall|i: int| 0 <= i < s2.screen.cells.len() ==> s2.screen.cells[i] == 0,
{
}

/// Drawing the same single-row sprite byte 0xFF twice at the same
/// coordinates on an initially empty framebuffer reports no collision on
/// the first draw, a collision on the second, and clears every pixel
/// again. `x` and `y` name the coordinate registers; the flag register
/// itself cannot serve as one, since the first draw writes it.
pub proof fn lemma_double_draw_clears(s0: VmState, s1: VmState, s2: VmState, x: int, y: int)
    requires
        s0.wf(),
        0 <= x < V_COUNT,
        0 <= y < V_COUNT,
        x != 15,
        y != 15,
        forall|i: int| 0 <= i < s0.screen.cells.len() ==> s0.screen.cells[i] == 0,
        s0.mem[s0.index as int] == 0xFF,
        spec_draw_rel(s0, s1, x, y, 1),
        spec_draw_rel(s1, s2, x, y, 1),
    ensures
        s1.regs[15] == 0,
        s2.regs[15] == 1,
        forall|tx: int, ty: int| s2.screen.in_range(tx, ty) ==> s2.screen.pix(tx, ty) == 0,
{
    let w = s0.screen.width;
    let h = s0.screen.height;
    let xc = draw_anchor_x(s0, x);
    let yc = draw_anchor_y(s0, y);
    assert(0 <= s0.regs[x] as int % w < w) by (nonlinear_arith)
        requires
            w > 0,
    ;
    assert(0 <= s0.regs[y] as int % h < h) by (nonlinear_arith)
        requires
            h > 0,
    ;
    let vr = spec_vis_rows(s0, y, 1);
    let vc = spec_vis_cols(s0, x);
    assert(vr == 1);
    assert(1 <= vc <= 8);
    assert(s1.regs[x] == s0.regs[x]);
    assert(s1.regs[y] == s0.regs[y]);
    assert(draw_anchor_x(s1, x) == xc);
    assert(draw_anchor_y(s1, y) == yc);
    assert(spec_vis_rows(s1, y, 1) == vr);
    assert(spec_vis_cols(s1, x) == vc);
    assert(sprite_row(s0, 0) == 0xFF);
    assert(sprite_row(s1, 0) == 0xFF);
    assert forall|b: int| 0 <= b < 8 implies sprite_bit(0xFFu8, b) == 1 by {
    }
    // the first draw finds every pixel clear, so it cannot collide
    assert forall|a: int, b: int|
        0 <= a && 0 <= b && ((a < 1 && b < vc) || (a == 1 && b < 0)) implies !draw_collision_at(
        s0,
        x,
        y,
        a,
        b,
    ) by {
        lemma_wrap_coord_bounds(xc, b, w);
        lemma_wrap_coord_bounds(yc, a, h);
        crate::video::lemma_cell_index_bounds(
            w,
            h,
            draw_target_x(s0, x, b),
            draw_target_y(s0, y, a),
        );
    }
    assert(!draw_collides_before(s0, x, y, 1, 0));
    assert(s1.regs =~= s0.regs.update(15, 0u8));
    // after the first draw every target pixel of the row is set
    assert forall|b: int| 0 <= b < vc implies s1.screen.pix(
        draw_target_x(s0, x, b),
        draw_target_y(s0, y, 0),
    ) == 1 by {
        assert(draw_cell_done(s0, s1, x, y, 0, b));
        lemma_wrap_coord_bounds(xc, b, w);
        lemma_wrap_coord_bounds(yc, 0, h);
        crate::video::lemma_cell_index_bounds(
            w,
            h,
            draw_target_x(s0, x, b),
            draw_target_y(s0, y, 0),
        );
        assert(s0.screen.pix(draw_target_x(s0, x, b), draw_target_y(s0, y, 0)) == 0);
        crate::video::lemma_single_bit_ops(0, 1);
    }
    // so the second draw collides on its very first cell
    assert(draw_target_x(s1, x, 0) == draw_target_x(s0, x, 0));
    assert(draw_target_y(s1, y, 0) == draw_target_y(s0, y, 0));
    assert(s1.screen.pix(draw_target_x(s1, x, 0), draw_target_y(s1, y, 0)) == 1);
    assert(draw_collision_at(s1, x, y, 0, 0));
    assert(0 <= 0 && 0 <= 0 && ((0 < 1 && 0 < spec_vis_cols(s1, x)) || (0 == 1 && 0 < 0))
        && draw_collision_at(s1, x, y, 0, 0));
    assert(draw_collides_before(s1, x, y, 1, 0));
    assert(s2.regs =~= s1.regs.update(15, 1u8));
    // and the second XOR turns every touched pixel off again
    assert forall|tx: int, ty: int| s2.screen.in_range(tx, ty) implies s2.screen.pix(tx, ty)
        == 0 by {
        crate::video::lemma_cell_index_bounds(w, h, tx, ty);
        if draw_hit(s1, x, y, 1, tx, ty) {
            let (a, b) = choose|a: int, b: int|
                0 <= a < spec_vis_rows(s1, y, 1) && 0 <= b < spec_vis_cols(s1, x)
                    && #[trigger] draw_target_x(s1, x, b) == tx && #[trigger] draw_target_y(
                    s1,
                    y,
                    a,
                ) == ty;
            assert(a == 0);
            assert(draw_cell_done(s1, s2, x, y, 0, b));
            assert(draw_target_x(s1, x, b) == draw_target_x(s0, x, b));
            assert(draw_target_y(s1, y, 0) == draw_target_y(s0, y, 0));
            assert(s1.screen.pix(tx, ty) == 1);
            assert(sprite_bit(sprite_row(s1, 0), b) == 1);
            crate::video::lemma_single_bit_ops(1, 1);
            assert(s2.screen.pix(tx, ty) == (1u8 ^ 1u8));
        } else {
            assert(s2.screen.pix(tx, ty) == s1.screen.pix(tx, ty));
            if draw_hit(s0, x, y, 1, tx, ty) {
                let (a, b) = choose|a: int, b: int|
                    0 <= a < spec_vis_rows(s0, y, 1) && 0 <= b < spec_vis_cols(s0, x)
                        && #[trigger] draw_target_x(s0, x, b) == tx && #[trigger] draw_target_y(
                        s0,
                        y,
                        a,
                    ) == ty;
                assert(draw_target_x(s1, x, b) == tx && draw_target_y(s1, y, a) == ty);
                assert(draw_hit(s1, x, y, 1, tx, ty));
            }
            assert(s1.screen.pix(tx, ty) == s0.screen.pix(tx, ty));
        }
    }
}

} // verus!
