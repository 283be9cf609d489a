//! Laws of the instruction set that relate several operations or quantify
//! over all inputs, stated over the same spec functions the operations'
//! own contracts use, and proved once and for all.

use crate::device::{eq_except_flow, eq_except_pc, fetched_instr, sat_dec, Device};
use crate::display::{disp_wf, draw_cols, draw_rows, flip, sprite_bit};
use crate::exec::{decode_err, load_regs, step_ok, store_regs};
use crate::isa::{lemma_field_bounds, op_x, op_y, parse_instr, Instr};
use vstd::arithmetic::div_mod::{lemma_fundamental_div_mod, lemma_mod_bound};
use vstd::prelude::*;

verus! {

/// Add-with-carry: for every pair of byte values, the flag register
/// receives exactly 1 when the unsigned sum overflows a byte and exactly 0
/// otherwise, and the target register (when it is not the flag register
/// itself, which the flag write overrides) receives the sum mod 256.
pub proof fn lemma_add_carry_flag(pre: Device, post: Device, i: u16, rnd: u8)
    requires
        step_ok(pre, post, i, rnd),
        parse_instr(i) is AddCarry,
    ensures
        ({
            let a = pre.registers[op_x(i) as int];
            let b = pre.registers[op_y(i) as int];
            &&& post.registers[15] == if a + b > 255 {
                1u8
            } else {
                0u8
            }
            &&& op_x(i) != 15 ==> post.registers[op_x(i) as int] == ((a + b) % 256) as u8
        }),
{
    lemma_field_bounds(i);
}

/// Subtract-with-borrow: for every pair of byte values, the flag register
/// receives exactly 1 when the minuend exceeds the subtrahend and exactly
/// 0 otherwise, and the target register receives the difference mod 256.
/// The two operand registers must not be the flag register itself, which
/// the flag write overrides before the subtraction reads it.
pub proof fn lemma_sub_borrow_flag(pre: Device, post: Device, i: u16, rnd: u8)
    requires
        step_ok(pre, post, i, rnd),
        parse_instr(i) is SubBorrow,
        op_x(i) != 15,
        op_y(i) != 15,
    ensures
        ({
            let a = pre.registers[op_x(i) as int];
            let b = pre.registers[op_y(i) as int];
            &&& post.registers[15] == if a > b {
                1u8
            } else {
                0u8
            }
            &&& post.registers[op_x(i) as int] == ((a - b) % 256) as u8
        }),
{
    lemma_field_bounds(i);
}

/// Whether a conditional-skip instruction's condition holds in a state.
pub open spec fn skip_condition(s: Device, i: u16) -> bool {
    match parse_instr(i) {
        Instr::SkipEqImm(x, nn) => s.registers[x as int] == nn,
        Instr::SkipNeImm(x, nn) => s.registers[x as int] != nn,
        Instr::SkipEqReg(x, y) => s.registers[x as int] == s.registers[y as int],
        Instr::SkipNeReg(x, y) => s.registers[x as int] != s.registers[y as int],
        _ => false,
    }
}

/// Whether an instruction word is one of the four conditional skips on
/// register values.
pub open spec fn is_skip(i: u16) -> bool {
    ||| parse_instr(i) is SkipEqImm
    ||| parse_instr(i) is SkipNeImm
    ||| parse_instr(i) is SkipEqReg
    ||| parse_instr(i) is SkipNeReg
}

/// Conditional skips advance the program counter by exactly 4 from its
/// pre-fetch value when the condition holds, and by exactly 2 when it
/// does not: `mid` is the state after fetching the skip instruction at
/// `pre`, and `post` the state after executing it.
pub proof fn lemma_skip_advance(pre: Device, mid: Device, post: Device, rnd: u8)
    requires
        pre.pc + 1 < 4096,
        eq_except_pc(pre, mid),
        mid.pc == pre.pc + 2,
        is_skip(fetched_instr(pre)),
        step_ok(mid, post, fetched_instr(pre), rnd),
    ensures
        skip_condition(pre, fetched_instr(pre)) ==> post.pc == pre.pc + 4,
        !skip_condition(pre, fetched_instr(pre)) ==> post.pc == pre.pc + 2,
{
}

/// A call followed by a return restores the program counter and the stack
/// pointer, and touches nothing else: returns observe the pushed
/// addresses in reverse call order.
pub proof fn lemma_call_return_round_trip(
    s1: Device,
    s2: Device,
    s3: Device,
    i1: u16,
    i2: u16,
    rnd1: u8,
    rnd2: u8,
)
    requires
        parse_instr(i1) is Call,
        decode_err(s1, i1) is None,
        step_ok(s1, s2, i1, rnd1),
        parse_instr(i2) is Ret,
        step_ok(s2, s3, i2, rnd2),
        s1.stack_pointer < 48,
    ensures
        s3.pc == s1.pc,
        s3.stack_pointer == s1.stack_pointer,
        eq_except_flow(s1, s3),
{
}

/// The stored block reads back pointwise: memory after the register-store
/// transfer holds the registers in the written window and is untouched
/// outside it.
pub proof fn lemma_store_regs_pointwise(mem: Seq<u8>, regs: Seq<u8>, ip: int, k: int)
    requires
        0 <= k,
        0 <= ip,
        ip + k <= mem.len(),
    ensures
        store_regs(mem, regs, ip, k).len() == mem.len(),
        forall|j: int|
            0 <= j < mem.len() ==> #[trigger] store_regs(mem, regs, ip, k)[j] == if ip <= j < ip
                + k {
                regs[j - ip]
            } else {
                mem[j]
            },
    decreases k,
{
    if k > 0 {
        lemma_store_regs_pointwise(mem, regs, ip, k - 1);
    }
}

/// The loaded bank reads back pointwise: registers after the
/// register-load transfer hold the memory window in the first `k` slots
/// and are untouched above it.
pub proof fn lemma_load_regs_pointwise(regs: Seq<u8>, mem: Seq<u8>, ip: int, k: int)
    requires
        0 <= k <= regs.len(),
    ensures
        load_regs(regs, mem, ip, k).len() == regs.len(),
        forall|i: int|
            0 <= i < regs.len() ==> #[trigger] load_regs(regs, mem, ip, k)[i] == if i < k {
                mem[ip + i]
            } else {
                regs[i]
            },
    decreases k,
{
    if k > 0 {
        lemma_load_regs_pointwise(regs, mem, ip, k - 1);
    }
}

/// Writing `register[0]..=register[X]` to memory and reading the same
/// window back into any register bank reproduces the original values
/// exactly.
pub proof fn lemma_store_load_round_trip(
    mem: Seq<u8>,
    regs: Seq<u8>,
    bank: Seq<u8>,
    ip: int,
    x: int,
)
    requires
        regs.len() == 16,
        bank.len() == 16,
        mem.len() == 4096,
        0 <= x < 16,
        0 <= ip,
        ip + x + 1 <= 4096,
    ensures
        forall|i: int|
            0 <= i <= x ==> #[trigger] load_regs(bank, store_regs(mem, regs, ip, x + 1), ip, x + 1)[i]
                == regs[i],
{
    lemma_store_regs_pointwise(mem, regs, ip, x + 1);
    lemma_load_regs_pointwise(bank, store_regs(mem, regs, ip, x + 1), ip, x + 1);
}

/// Timers never underflow: one tick of a zero timer leaves it at zero (so
/// any number of ticks does), and a tick never increases a timer.
pub proof fn lemma_timer_never_underflows(t: u8)
    ensures
        sat_dec(0) == 0,
        sat_dec(t) <= t,
{
}

/// Two columns of one sprite row land on distinct grid columns: offsets
/// less than the wrap modulus apart cannot collide.
proof fn lemma_wrap_distinct(x: int, c1: int, c2: int, m: int)
    requires
        0 <= x,
        0 <= c1 < c2,
        c2 - c1 < m,
        0 < m,
    ensures
        (x + c1) % m != (x + c2) % m,
{
    let a = x + c1;
    let b = x + c2;
    lemma_fundamental_div_mod(a, m);
    lemma_fundamental_div_mod(b, m);
    if (a % m) == (b % m) {
        let k = b / m - a / m;
        assert(m * (b / m) - m * (a / m) == m * k) by (nonlinear_arith)
            requires
                k == b / m - a / m,
        ;
        assert(b - a == m * k);
        assert(k >= 1 ==> m * k >= m) by (nonlinear_arith)
            requires
                0 < m,
        ;
        assert(k <= 0 ==> m * k <= 0) by (nonlinear_arith)
            requires
                0 < m,
        ;
        assert(false);
    }
}

/// Pointwise reading of one composited sprite row: a set sprite bit lands
/// on its wrapped column of grid row `py` and XOR-flips exactly that
/// pixel, every other pixel is untouched, and the collision flag is
/// raised if and only if it was already raised or some set bit landed on
/// a lit pixel.
pub proof fn lemma_draw_cols_pointwise(
    d: Seq<Seq<u8>>,
    vf: u8,
    x: int,
    py: int,
    byte: u8,
    n: int,
)
    requires
        disp_wf(d),
        0 <= x,
        0 <= py < 32,
        0 <= n <= 8,
    ensures
        ({
            let res = draw_cols(d, vf, x, py, byte, n);
            &&& disp_wf(res.0)
            &&& forall|j: int, k: int|
                0 <= j < 64 && 0 <= k < 32 && !(k == py && exists|c: int|
                    0 <= c < n && sprite_bit(byte, c) && j == (x + c) % 64) ==> res.0[j][k] == d[j][k]
            &&& forall|c: int|
                0 <= c < n && sprite_bit(byte, c) ==> res.0[(x + c) % 64][py] == flip(
                    d[(x + c) % 64][py],
                )
            &&& res.1 == if vf == 1 || exists|c: int|
                0 <= c < n && sprite_bit(byte, c) && d[(x + c) % 64][py] == 1 {
                1u8
            } else {
                vf
            }
        }),
    decreases n,
{
    if n <= 0 {
        let res = draw_cols(d, vf, x, py, byte, n);
        assert(res.0 == d && res.1 == vf);
        assert(!(exists|c: int| 0 <= c < n && sprite_bit(byte, c) && d[(x + c) % 64][py] == 1));
    } else {
        lemma_draw_cols_pointwise(d, vf, x, py, byte, n - 1);
        let prev = draw_cols(d, vf, x, py, byte, n - 1);
        let res = draw_cols(d, vf, x, py, byte, n);
        let c0 = n - 1;
        if sprite_bit(byte, c0) {
            let px = (x + c0) % 64;
            lemma_mod_bound(x + c0, 64);
            assert forall|c2: int| 0 <= c2 < n - 1 implies #[trigger] ((x + c2) % 64) != px by {
                lemma_wrap_distinct(x, c2, c0, 64);
            }
            assert(prev.0[px][py] == d[px][py]);
            assert(res.0 == prev.0.update(px, prev.0[px].update(py, flip(prev.0[px][py]))));
            // the newly touched pixel
            assert(res.0[px][py] == flip(d[px][py]));
            // pixels touched by earlier columns keep their flipped value
            assert forall|c: int|
                0 <= c < n && sprite_bit(byte, c) implies res.0[(x + c) % 64][py] == flip(
                d[(x + c) % 64][py],
            ) by {
                if c < n - 1 {
                    lemma_wrap_distinct(x, c, c0, 64);
                    lemma_mod_bound(x + c, 64);
                    assert(res.0[(x + c) % 64][py] == prev.0[(x + c) % 64][py]);
                }
            }
            // untouched pixels
            assert forall|j: int, k: int|
                0 <= j < 64 && 0 <= k < 32 && !(k == py && exists|c: int|
                    0 <= c < n && sprite_bit(byte, c) && j == (x + c) % 64) implies res.0[j][k]
                == d[j][k] by {
                assert(!(k == py && j == px));
                assert(res.0[j][k] == prev.0[j][k]);
                assert(!(k == py && exists|c: int|
                    0 <= c < n - 1 && sprite_bit(byte, c) && j == (x + c) % 64));
            }
            // the collision flag
            assert(res.1 == if d[px][py] == 1 {
                1u8
            } else {
                prev.1
            });
            if d[px][py] == 1 {
                assert(0 <= c0 < n && sprite_bit(byte, c0) && d[(x + c0) % 64][py] == 1);
                assert(res.1 == 1);
            } else {
                if vf != 1 && (exists|c: int|
                    0 <= c < n && sprite_bit(byte, c) && d[(x + c) % 64][py] == 1) {
                    let cw = choose|c: int|
                        0 <= c < n && sprite_bit(byte, c) && d[(x + c) % 64][py] == 1;
                    assert(cw != c0);
                    assert(0 <= cw < n - 1 && sprite_bit(byte, cw) && d[(x + cw) % 64][py] == 1);
                }
            }
            // well-formedness of the result grid
            assert(disp_wf(res.0));
        } else {
            assert(res == prev);
            assert forall|c: int|
                0 <= c < n && sprite_bit(byte, c) implies 0 <= c < n - 1 && sprite_bit(
                byte,
                c,
            ) by {
                assert(c != c0);
            }
        }
    }
}

/// Drawing an all-ones 8-wide, 1-tall sprite twice at the same position
/// restores every touched pixel and leaves every other pixel alone; the
/// first draw on dark target pixels reports no collision and the second
/// reports one.
pub proof fn lemma_draw_twice_restores(d: Seq<Seq<u8>>, x: int, y: int, mem: Seq<u8>, ip: int)
    requires
        disp_wf(d),
        0 <= x,
        0 <= y,
        0 <= ip,
        ip < mem.len(),
        mem[ip] == 0xFF,
        forall|c: int| 0 <= c < 8 ==> #[trigger] d[(x + c) % 64][y % 32] == 0,
    ensures
        ({
            let first = draw_rows(d, 0, x, y, mem, ip, 1);
            let second = draw_rows(first.0, 0, x, y, mem, ip, 1);
            &&& first.1 == 0
            &&& second.1 == 1
            &&& second.0 == d
        }),
{
    assert forall|c: int| 0 <= c < 8 implies sprite_bit(0xFF, c) by {
        let cu = c as u8;
        assert(cu < 8 ==> (0xFFu8 & (0x80u8 >> cu)) != 0) by (bit_vector);
    }
    let py = y % 32;
    lemma_mod_bound(y, 32);
    let first = draw_rows(d, 0, x, y, mem, ip, 1);
    assert(draw_rows(d, 0, x, y, mem, ip, 0) == (d, 0u8));
    assert(first == draw_cols(d, 0, x, py, mem[ip], 8));
    lemma_draw_cols_pointwise(d, 0, x, py, 0xFF, 8);
    assert(first.1 == 0);
    let second = draw_rows(first.0, 0, x, y, mem, ip, 1);
    assert(draw_rows(first.0, 0, x, y, mem, ip, 0) == (first.0, 0u8));
    assert(second == draw_cols(first.0, 0, x, py, mem[ip], 8));
    lemma_draw_cols_pointwise(first.0, 0, x, py, 0xFF, 8);
    assert(sprite_bit(0xFF, 0));
    lemma_mod_bound(x, 64);
    assert(first.0[(x + 0) % 64][py] == flip(d[(x + 0) % 64][py]));
    assert(first.0[(x + 0) % 64][py] == 1);
    assert(second.1 == 1);
    assert forall|j: int, k: int| 0 <= j < 64 && 0 <= k < 32 implies second.0[j][k] == d[j][k] by {
        if k == py && exists|c: int| 0 <= c < 8 && sprite_bit(0xFF, c) && j == (x + c) % 64 {
            let c = choose|c: int| 0 <= c < 8 && sprite_bit(0xFF, c) && j == (x + c) % 64;
            lemma_mod_bound(x + c, 64);
            assert(first.0[j][k] == flip(d[j][k]));
            assert(second.0[j][k] == flip(first.0[j][k]));
        } else {
            assert(second.0[j][k] == first.0[j][k]);
            assert(first.0[j][k] == d[j][k]);
        }
    }
    assert(second.0 =~~= d);
}

} // verus!
