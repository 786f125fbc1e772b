use vstd::prelude::*;
use vstd::arithmetic::div_mod::{lemma_fundamental_div_mod, lemma_fundamental_div_mod_converse};
use vstd::pervasive::VecAdditionalExecFns;
use crate::array2d::Array2D;
use crate::instructions::{decode, spec_decode, Instruction};
use crate::texture::RGBAImage;
use crate::timers::{spec_tick, Timers};

verus! {

pub const DISPLAY_WIDTH: usize = 64;

pub const DISPLAY_HEIGHT: usize = 32;

pub const DISPLAY_CELLS: usize = 2048;

pub const FONT_START_ADDRESS: usize = 0x50;

pub const ROM_START_ADDRESS: usize = 0x200;

pub const MEMORY_SIZE: usize = 4096;

pub const STACK_CAPACITY: usize = 100;

/// The color-channel byte of a pixel in the packed buffer: 255 for an "on"
/// pixel (white), 0 for an "off" pixel (black).
pub open spec fn spec_pixel_byte(on: bool) -> u8 {
    if on {
        255
    } else {
        0
    }
}

/// Byte `a` of the packed color buffer: four bytes per pixel, the three
/// color channels white or black after the pixel, and the fourth (alpha)
/// byte 255 — every pixel is fully opaque, on or off.
pub open spec fn spec_rgba_byte(pixels: Seq<bool>, a: int) -> u8 {
    if a % 4 == 3 {
        255
    } else {
        spec_pixel_byte(pixels[a / 4])
    }
}

/// The 64x32 monochrome framebuffer together with its derived packed color
/// buffer (4 bytes per pixel), kept in sync with the pixel grid.
///
/// The view of a `Display` is the flat pixel sequence of length 2048, row
/// major: pixel `(x, y)` is at index `y * 64 + x`.
pub struct Display {
    _pixels: Array2D<bool>,
    _rgba: Vec<u8>,
}

impl View for Display {
    type V = Seq<bool>;

    closed spec fn view(&self) -> Seq<bool> {
        self._pixels@
    }
}

impl Display {
    /// The pixel grid has its fixed shape and the packed buffer mirrors it.
    pub closed spec fn wf(&self) -> bool {
        &&& self._pixels.wf()
        &&& self._pixels.spec_rows() == DISPLAY_HEIGHT
        &&& self._pixels.spec_cols() == DISPLAY_WIDTH
        &&& self._rgba@.len() == 4 * DISPLAY_CELLS
        &&& forall|a: int|
            0 <= a < 4 * DISPLAY_CELLS ==> self._rgba@[a] == spec_rgba_byte(self._pixels@, a)
    }

    /// Recompute the packed color buffer from the pixel grid.
    fn update_rgba_from_pixels(&mut self)
        requires
            old(self)._pixels.wf(),
            old(self)._pixels.spec_rows() == DISPLAY_HEIGHT,
            old(self)._pixels.spec_cols() == DISPLAY_WIDTH,
            old(self)._rgba@.len() == 4 * DISPLAY_CELLS,
        ensures
            final(self)._pixels == old(self)._pixels,
            final(self).wf(),
    {
        let mut a: usize = 0;
        while a < 4 * DISPLAY_CELLS
            invariant
                a <= 4 * DISPLAY_CELLS,
                self._pixels == old(self)._pixels,
                self._pixels.wf(),
                self._pixels.spec_rows() == DISPLAY_HEIGHT,
                self._pixels.spec_cols() == DISPLAY_WIDTH,
                self._rgba@.len() == 4 * DISPLAY_CELLS,
                forall|b: int| 0 <= b < a ==> self._rgba@[b] == spec_rgba_byte(self._pixels@, b),
            decreases 4 * DISPLAY_CELLS - a,
        {
            let k = a / 4;
            let y = k / DISPLAY_WIDTH;
            let x = k % DISPLAY_WIDTH;
            let on = self._pixels.get(y, x);
            proof {
                assert(y * 64 + x == a / 4);
            }
            let b: u8 = if a % 4 == 3 {
                255
            } else if on {
                255
            } else {
                0
            };
            self._rgba.set(a, b);
            a = a + 1;
        }
    }

    /// Copy the packed color buffer into a standalone image.
    pub fn to_image(&self) -> (r: RGBAImage)
        requires
            self.wf(),
        ensures
            r@.len() == 4 * DISPLAY_CELLS,
            forall|a: int| 0 <= a < 4 * DISPLAY_CELLS ==> r@[a] == spec_rgba_byte(self@, a),
            r.spec_width() == DISPLAY_WIDTH,
            r.spec_height() == DISPLAY_HEIGHT,
    {
        let mut data: Vec<u8> = Vec::new();
        let mut a: usize = 0;
        while a < 4 * DISPLAY_CELLS
            invariant
                a <= 4 * DISPLAY_CELLS,
                self.wf(),
                data@.len() == a,
                forall|b: int| 0 <= b < a ==> data@[b] == spec_rgba_byte(self@, b),
            decreases 4 * DISPLAY_CELLS - a,
        {
            let k = a / 4;
            let y = k / DISPLAY_WIDTH;
            let x = k % DISPLAY_WIDTH;
            let on = self._pixels.get(y, x);
            proof {
                assert(y * 64 + x == a / 4);
            }
            let b: u8 = if a % 4 == 3 {
                255
            } else if on {
                255
            } else {
                0
            };
            data.push(b);
            a = a + 1;
        }
        RGBAImage::new(data, DISPLAY_WIDTH, DISPLAY_HEIGHT)
    }

    /// The underlying pixel grid.
    pub fn pixels(&self) -> (r: &Array2D<bool>)
        requires
            self.wf(),
        ensures
            r@ == self@,
            r.wf(),
            r.spec_rows() == DISPLAY_HEIGHT,
            r.spec_cols() == DISPLAY_WIDTH,
    {
        &self._pixels
    }

    /// Whether the pixel at `(x, y)` is on.
    pub fn pixel(&self, x: usize, y: usize) -> (r: bool)
        requires
            self.wf(),
            x < DISPLAY_WIDTH,
            y < DISPLAY_HEIGHT,
        ensures
            r == self@[y * DISPLAY_WIDTH + x],
    {
        self._pixels.get(y, x)
    }

    /// Turn the pixel at `(x, y)` on or off, keeping the packed buffer in
    /// step.
    pub fn set_pixel(&mut self, x: usize, y: usize, v: bool)
        requires
            old(self).wf(),
            x < DISPLAY_WIDTH,
            y < DISPLAY_HEIGHT,
        ensures
            final(self).wf(),
            final(self)@ == old(self)@.update(y * DISPLAY_WIDTH + x, v),
    {
        self._pixels.set(y, x, v);
        self.update_rgba_from_pixels();
    }

    /// Turn every pixel off.
    pub fn clear(&mut self)
        requires
            old(self).wf(),
        ensures
            final(self).wf(),
            final(self)@.len() == DISPLAY_CELLS,
            forall|k: int| 0 <= k < DISPLAY_CELLS ==> final(self)@[k] == false,
    {
        let mut k: usize = 0;
        while k < DISPLAY_CELLS
            invariant
                k <= DISPLAY_CELLS,
                self._pixels.wf(),
                self._pixels.spec_rows() == DISPLAY_HEIGHT,
                self._pixels.spec_cols() == DISPLAY_WIDTH,
                self._rgba@.len() == 4 * DISPLAY_CELLS,
                forall|j: int| 0 <= j < k ==> self._pixels@[j] == false,
            decreases DISPLAY_CELLS - k,
        {
            let y = k / DISPLAY_WIDTH;
            let x = k % DISPLAY_WIDTH;
            proof {
                assert(y * 64 + x == k);
            }
            self._pixels.set(y, x, false);
            k = k + 1;
        }
        self.update_rgba_from_pixels();
    }

    /// The width of the display in pixels.
    pub fn width(&self) -> (r: usize)
        requires
            self.wf(),
        ensures
            r == DISPLAY_WIDTH,
    {
        self._pixels.cols()
    }

    /// The height of the display in pixels.
    pub fn height(&self) -> (r: usize)
        requires
            self.wf(),
        ensures
            r == DISPLAY_HEIGHT,
    {
        self._pixels.rows()
    }
}

impl Default for Display {
    /// A display with every pixel off.
    fn default() -> (r: Self)
        ensures
            r.wf(),
            r@.len() == DISPLAY_CELLS,
            forall|k: int| 0 <= k < DISPLAY_CELLS ==> r@[k] == false,
    {
        let pixels = Array2D::new(DISPLAY_HEIGHT, DISPLAY_WIDTH, false);
        let mut rgba: Vec<u8> = Vec::new();
        let mut a: usize = 0;
        while a < 4 * DISPLAY_CELLS
            invariant
                a <= 4 * DISPLAY_CELLS,
                rgba@.len() == a,
            decreases 4 * DISPLAY_CELLS - a,
        {
            rgba.push(0);
            a = a + 1;
        }
        let mut display = Display { _pixels: pixels, _rgba: rgba };
        display.update_rgba_from_pixels();
        display
    }
}

/// The standard 80-byte font table: 16 glyphs of 5 rows each, one byte per
/// row, the high 4 bits of each byte significant.
pub open spec fn spec_font() -> Seq<u8> {
    seq![
        0xF0u8, 0x90, 0x90, 0x90, 0xF0,
        0x20, 0x60, 0x20, 0x20, 0x70,
        0xF0, 0x10, 0xF0, 0x80, 0xF0,
        0xF0, 0x10, 0xF0, 0x10, 0xF0,
        0x90, 0x90, 0xF0, 0x10, 0x10,
        0xF0, 0x80, 0xF0, 0x10, 0xF0,
        0xF0, 0x80, 0xF0, 0x90, 0xF0,
        0xF0, 0x10, 0x20, 0x40, 0x40,
        0xF0, 0x90, 0xF0, 0x90, 0xF0,
        0xF0, 0x90, 0xF0, 0x10, 0xF0,
        0xF0, 0x90, 0xF0, 0x90, 0x90,
        0xE0, 0x90, 0xE0, 0x90, 0xE0,
        0xF0, 0x80, 0x80, 0x80, 0xF0,
        0xE0, 0x90, 0x90, 0x90, 0xE0,
        0xF0, 0x80, 0xF0, 0x80, 0xF0,
        0xF0, 0x80, 0xF0, 0x80, 0x80,
    ]
}

/// The mathematical state of a machine: what its contracts speak of.
#[verifier::ext_equal]
pub struct MachineView {
    pub ram: Seq<u8>,
    pub regs: Seq<u8>,
    pub stack: Seq<u16>,
    pub stack_index: int,
    pub pc: int,
    pub index: int,
    pub keys: Seq<bool>,
    pub pixels: Seq<bool>,
    pub timers: Timers,
}

/// A CHIP-8 computer: 4096 bytes of memory, 16 8-bit registers (the 16th
/// doubling as the carry/borrow/collision flag), a 16-bit index register, a
/// bounded call stack, an edge-triggered 16-key keypad, the framebuffer and
/// the two countdown timers.
pub struct Machine {
    pub display: Display,
    pub ram: Vec<u8>,
    pub stack: Vec<u16>,
    pub stack_index: usize,
    pub program_counter: usize,
    pub index_register: u16,
    pub registers: Vec<u8>,
    pub key_pressed: Vec<bool>,
    pub timers: Timers,
}

impl View for Machine {
    type V = MachineView;

    open spec fn view(&self) -> MachineView {
        MachineView {
            ram: self.ram@,
            regs: self.registers@,
            stack: self.stack@,
            stack_index: self.stack_index as int,
            pc: self.program_counter as int,
            index: self.index_register as int,
            keys: self.key_pressed@,
            pixels: self.display@,
            timers: self.timers,
        }
    }
}

impl MachineView {
    /// The shape every reachable machine state has: fixed sizes, a program
    /// counter inside memory, a stack of in-memory return addresses and a
    /// bounded stack depth.
    pub open spec fn wf(&self) -> bool {
        &&& self.ram.len() == MEMORY_SIZE
        &&& self.regs.len() == 16
        &&& self.stack.len() == STACK_CAPACITY
        &&& 0 <= self.stack_index <= STACK_CAPACITY
        &&& 0 <= self.pc < MEMORY_SIZE
        &&& 0 <= self.index < 0x10000
        &&& self.keys.len() == 16
        &&& self.pixels.len() == DISPLAY_CELLS
        &&& forall|i: int| 0 <= i < STACK_CAPACITY ==> self.stack[i] < MEMORY_SIZE
        &&& self.timers.wf()
    }
}

impl Machine {
    pub open spec fn wf(&self) -> bool {
        &&& self@.wf()
        &&& self.display.wf()
    }

    /// Write the font table at its fixed base address.
    fn init_font(&mut self)
        requires
            old(self)@.ram.len() == MEMORY_SIZE,
        ensures
            final(self).ram@.len() == MEMORY_SIZE,
            forall|a: int|
                0 <= a < MEMORY_SIZE ==> final(self).ram@[a] == (if FONT_START_ADDRESS <= a
                    < FONT_START_ADDRESS + 80 {
                    spec_font()[a - FONT_START_ADDRESS]
                } else {
                    old(self).ram@[a]
                }),
            final(self).display == old(self).display,
            final(self).stack == old(self).stack,
            final(self).stack_index == old(self).stack_index,
            final(self).program_counter == old(self).program_counter,
            final(self).index_register == old(self).index_register,
            final(self).registers == old(self).registers,
            final(self).key_pressed == old(self).key_pressed,
            final(self).timers == old(self).timers,
    {
        let font: [u8; 80] = [
            0xF0, 0x90, 0x90, 0x90, 0xF0,
            0x20, 0x60, 0x20, 0x20, 0x70,
            0xF0, 0x10, 0xF0, 0x80, 0xF0,
            0xF0, 0x10, 0xF0, 0x10, 0xF0,
            0x90, 0x90, 0xF0, 0x10, 0x10,
            0xF0, 0x80, 0xF0, 0x10, 0xF0,
            0xF0, 0x80, 0xF0, 0x90, 0xF0,
            0xF0, 0x10, 0x20, 0x40, 0x40,
            0xF0, 0x90, 0xF0, 0x90, 0xF0,
            0xF0, 0x90, 0xF0, 0x10, 0xF0,
            0xF0, 0x90, 0xF0, 0x90, 0x90,
            0xE0, 0x90, 0xE0, 0x90, 0xE0,
            0xF0, 0x80, 0x80, 0x80, 0xF0,
            0xE0, 0x90, 0x90, 0x90, 0xE0,
            0xF0, 0x80, 0xF0, 0x80, 0xF0,
            0xF0, 0x80, 0xF0, 0x80, 0x80,
        ];
        proof {
            assert(font@ =~= spec_font());
        }
        let mut i: usize = 0;
        while i < 80
            invariant
                i <= 80,
                font@ =~= spec_font(),
                self.ram@.len() == MEMORY_SIZE,
                forall|a: int|
                    0 <= a < MEMORY_SIZE ==> self.ram@[a] == (if FONT_START_ADDRESS <= a
                        < FONT_START_ADDRESS + i {
                        spec_font()[a - FONT_START_ADDRESS]
                    } else {
                        old(self).ram@[a]
                    }),
                self.display == old(self).display,
                self.stack == old(self).stack,
                self.stack_index == old(self).stack_index,
                self.program_counter == old(self).program_counter,
                self.index_register == old(self).index_register,
                self.registers == old(self).registers,
                self.key_pressed == old(self).key_pressed,
                self.timers == old(self).timers,
            decreases 80 - i,
        {
            self.ram.set(FONT_START_ADDRESS + i, font[i]);
            i = i + 1;
        }
    }

    /// The memory address of the font glyph for `c` (the low nibble of a
    /// register value): the font base plus a stride of 4 per glyph, the
    /// stride this machine has always used.
    fn get_character_address(&self, c: u8) -> (r: u16)
        ensures
            r == FONT_START_ADDRESS + c * 4,
    {
        FONT_START_ADDRESS as u16 + (c as u16) * 4
    }

    /// The flag register: the 16th general register, overloaded as the
    /// carry/borrow/collision output.
    pub fn flag_register(&self) -> (r: u8)
        requires
            self.wf(),
        ensures
            r == self@.regs[15],
    {
        self.registers[15]
    }

    fn set_flag_register(&mut self, v: u8)
        requires
            old(self)@.regs.len() == 16,
        ensures
            final(self).registers@ == old(self).registers@.update(15, v),
            final(self).display == old(self).display,
            final(self).ram == old(self).ram,
            final(self).stack == old(self).stack,
            final(self).stack_index == old(self).stack_index,
            final(self).program_counter == old(self).program_counter,
            final(self).index_register == old(self).index_register,
            final(self).key_pressed == old(self).key_pressed,
            final(self).timers == old(self).timers,
    {
        self.registers.set(15, v);
    }

    /// Copy a ROM into memory starting at the fixed load address and point
    /// the program counter there. Bytes that would fall beyond the 4096-byte
    /// address space are dropped.
    pub fn load_rom_from_bytes(&mut self, data: &[u8])
        requires
            old(self).wf(),
        ensures
            final(self).wf(),
            final(self)@.pc == ROM_START_ADDRESS,
            final(self)@.ram.len() == MEMORY_SIZE,
            forall|a: int|
                0 <= a < MEMORY_SIZE ==> final(self)@.ram[a] == (if ROM_START_ADDRESS <= a
                    < ROM_START_ADDRESS + data@.len() {
                    data@[a - ROM_START_ADDRESS]
                } else {
                    old(self)@.ram[a]
                }),
            final(self)@.regs == old(self)@.regs,
            final(self)@.stack == old(self)@.stack,
            final(self)@.stack_index == old(self)@.stack_index,
            final(self)@.index == old(self)@.index,
            final(self)@.keys == old(self)@.keys,
            final(self)@.pixels == old(self)@.pixels,
            final(self)@.timers == old(self)@.timers,
            final(self).display == old(self).display,
    {
        let mut i: usize = 0;
        let count = if data.len() > MEMORY_SIZE - ROM_START_ADDRESS {
            MEMORY_SIZE - ROM_START_ADDRESS
        } else {
            data.len()
        };
        while i < count
            invariant
                i <= count,
                count <= data@.len(),
                count <= MEMORY_SIZE - ROM_START_ADDRESS,
                ROM_START_ADDRESS + data@.len() > MEMORY_SIZE ==> count == MEMORY_SIZE
                    - ROM_START_ADDRESS,
                ROM_START_ADDRESS + data@.len() <= MEMORY_SIZE ==> count == data@.len(),
                self.ram@.len() == MEMORY_SIZE,
                forall|a: int|
                    0 <= a < MEMORY_SIZE ==> self.ram@[a] == (if ROM_START_ADDRESS <= a
                        < ROM_START_ADDRESS + i {
                        data@[a - ROM_START_ADDRESS]
                    } else {
                        old(self)@.ram[a]
                    }),
                self.display == old(self).display,
                self.stack == old(self).stack,
                self.stack_index == old(self).stack_index,
                self.program_counter == old(self).program_counter,
                self.index_register == old(self).index_register,
                self.registers == old(self).registers,
                self.key_pressed == old(self).key_pressed,
                self.timers == old(self).timers,
            decreases count - i,
        {
            self.ram.set(ROM_START_ADDRESS + i, data[i]);
            i = i + 1;
        }
        self.program_counter = ROM_START_ADDRESS;
    }

    /// Load a ROM written as 16-bit instruction words: each word is stored
    /// big-endian, high byte first. A convenience for writing programs in
    /// instruction hex.
    pub fn load_rom_from_instrhex(&mut self, data: &[u16])
        requires
            old(self).wf(),
        ensures
            final(self).wf(),
            final(self)@.pc == ROM_START_ADDRESS,
            final(self)@.ram.len() == MEMORY_SIZE,
            forall|a: int|
                0 <= a < MEMORY_SIZE ==> final(self)@.ram[a] == (if ROM_START_ADDRESS <= a
                    < ROM_START_ADDRESS + 2 * data@.len() {
                    spec_word_byte(data@, a - ROM_START_ADDRESS)
                } else {
                    old(self)@.ram[a]
                }),
            final(self)@.regs == old(self)@.regs,
            final(self)@.stack == old(self)@.stack,
            final(self)@.stack_index == old(self)@.stack_index,
            final(self)@.index == old(self)@.index,
            final(self)@.keys == old(self)@.keys,
            final(self)@.pixels == old(self)@.pixels,
            final(self)@.timers == old(self)@.timers,
            final(self).display == old(self).display,
    {
        let mut bytes: Vec<u8> = Vec::new();
        let mut i: usize = 0;
        while i < data.len()
            invariant
                i <= data@.len(),
                bytes@.len() == 2 * i,
                forall|b: int| 0 <= b < 2 * i ==> bytes@[b] == spec_word_byte(data@, b),
            decreases data@.len() - i,
        {
            let v = data[i];
            bytes.push(((v & 0xFF00) >> 8) as u8);
            bytes.push((v & 0x00FF) as u8);
            proof {
                assert forall|b: int| 0 <= b < 2 * (i + 1) implies bytes@[b] == spec_word_byte(
                    data@,
                    b,
                ) by {
                    if b == 2 * i {
                        assert(b / 2 == i && b % 2 == 0);
                    } else if b == 2 * i + 1 {
                        assert(b / 2 == i && b % 2 == 1);
                    }
                }
            }
            i = i + 1;
        }
        self.load_rom_from_bytes(bytes.as_slice());
    }

    /// Push a return address. A push onto a full stack clamps the depth
    /// back to the last slot and overwrites the newest entry instead of
    /// failing.
    fn push_stack(&mut self, v: u16)
        requires
            old(self).wf(),
            v < MEMORY_SIZE,
        ensures
            final(self).wf(),
            final(self)@ =~= spec_push(old(self)@, v),
            final(self).display == old(self).display,
    {
        if self.stack_index >= STACK_CAPACITY {
            self.stack_index = STACK_CAPACITY - 1;
        }
        self.stack.set(self.stack_index, v);
        self.stack_index = self.stack_index + 1;
    }

    /// Pop a return address. A pop from an empty stack clamps the depth so
    /// that slot 0 is re-read instead of failing.
    fn pop_stack(&mut self) -> (r: u16)
        requires
            old(self).wf(),
        ensures
            final(self).wf(),
            final(self)@ =~= (MachineView {
                stack_index: spec_popped_index(old(self)@),
                ..old(self)@
            }),
            r == old(self)@.stack[spec_popped_index(old(self)@)],
            r < MEMORY_SIZE,
            final(self).display == old(self).display,
    {
        if self.stack_index < 1 {
            self.stack_index = 1;
        }
        self.stack_index = self.stack_index - 1;
        self.stack[self.stack_index]
    }

    /// Decode the instruction at the program counter, without executing it.
    pub fn decode_next_instruction(&self) -> (r: Instruction)
        requires
            self.wf(),
        ensures
            r == spec_decode(spec_fetch_word(self@), (self@.pc as usize)),
            crate::instructions::spec_instr_bounds(r),
    {
        let hi = self.ram[self.program_counter];
        let lo = self.ram[(self.program_counter + 1) % MEMORY_SIZE];
        decode(((hi as u16) << 8) | (lo as u16), self.program_counter)
    }

    /// The shared body of the two subtract instructions: flag 1 for
    /// no-borrow, then the wrapped difference into register `rx`.
    fn _execute_subtract(&mut self, rx: u8, v1: u8, v2: u8)
        requires
            old(self).wf(),
            rx < 16,
        ensures
            final(self).wf(),
            final(self)@ =~= spec_subtract(old(self)@, rx, v1, v2),
            final(self).display == old(self).display,
    {
        if v1 >= v2 {
            self.set_flag_register(1);
        } else {
            self.set_flag_register(0);
        }
        let diff: u8 = if v1 >= v2 {
            v1 - v2
        } else {
            (((v1 as u16 + 256) - (v2 as u16)) as u8)
        };
        proof {
            if v1 < v2 {
                assert((v1 - v2) % 256 == v1 + 256 - v2);
            }
        }
        self.registers.set(rx as usize, diff);
    }

    /// The lowest-indexed pressed key, or 16 if none is pressed.
    fn first_pressed_key(&self) -> (r: usize)
        requires
            self.wf(),
        ensures
            r == spec_first_pressed(self@.keys),
    {
        let mut r: usize = 16;
        let mut k: usize = 0;
        while k < 16
            invariant
                k <= 16,
                r <= 16,
                self@.keys.len() == 16,
                r == 16 ==> spec_first_pressed(self@.keys) == spec_first_pressed_from(
                    self@.keys,
                    k as int,
                ),
                r < 16 ==> r == spec_first_pressed(self@.keys),
            decreases 16 - k,
        {
            if r == 16 && self.key_pressed[k] {
                proof {
                    assert(spec_first_pressed_from(self@.keys, k as int) == k);
                }
                r = k;
            }
            k = k + 1;
        }
        proof {
            assert(spec_first_pressed_from(self@.keys, 16) == 16);
        }
        r
    }

    /// Dump registers 0 through `vx` inclusive to memory at the index
    /// register, dropping bytes that would land beyond the address space.
    fn store_registers(&mut self, vx: u8)
        requires
            old(self).wf(),
            vx < 16,
        ensures
            final(self).wf(),
            final(self)@ =~= spec_store_regs(old(self)@, vx),
            final(self).display == old(self).display,
    {
        let base = self.index_register as usize;
        let mut i: usize = 0;
        while i < vx as usize + 1
            invariant
                i <= vx + 1,
                vx < 16,
                base == old(self)@.index,
                self@.ram.len() == MEMORY_SIZE,
                self@.regs == old(self)@.regs,
                self@.regs.len() == 16,
                forall|a: int|
                    0 <= a < MEMORY_SIZE ==> self@.ram[a] == (if old(self)@.index <= a
                        < old(self)@.index + i {
                        old(self)@.regs[a - old(self)@.index]
                    } else {
                        old(self)@.ram[a]
                    }),
                self.display == old(self).display,
                self.stack == old(self).stack,
                self.stack_index == old(self).stack_index,
                self.program_counter == old(self).program_counter,
                self.index_register == old(self).index_register,
                self.key_pressed == old(self).key_pressed,
                self.timers == old(self).timers,
            decreases vx + 1 - i,
        {
            let a = base + i;
            if a < MEMORY_SIZE {
                let v = self.registers[i];
                self.ram.set(a, v);
            }
            i = i + 1;
        }
    }

    /// Load registers 0 through `vx` inclusive from memory at the index
    /// register, leaving untouched any register whose source byte would lie
    /// beyond the address space.
    fn load_registers(&mut self, vx: u8)
        requires
            old(self).wf(),
            vx < 16,
        ensures
            final(self).wf(),
            final(self)@ =~= spec_load_regs(old(self)@, vx),
            final(self).display == old(self).display,
    {
        let base = self.index_register as usize;
        let mut i: usize = 0;
        while i < vx as usize + 1
            invariant
                i <= vx + 1,
                vx < 16,
                base == old(self)@.index,
                self@.ram == old(self)@.ram,
                self@.ram.len() == MEMORY_SIZE,
                self@.regs.len() == 16,
                forall|j: int|
                    0 <= j < 16 ==> self@.regs[j] == (if j < i && old(self)@.index + j
                        < MEMORY_SIZE {
                        old(self)@.ram[old(self)@.index + j]
                    } else {
                        old(self)@.regs[j]
                    }),
                self.display == old(self).display,
                self.stack == old(self).stack,
                self.stack_index == old(self).stack_index,
                self.program_counter == old(self).program_counter,
                self.index_register == old(self).index_register,
                self.key_pressed == old(self).key_pressed,
                self.timers == old(self).timers,
            decreases vx + 1 - i,
        {
            let a = base + i;
            if a < MEMORY_SIZE {
                let v = self.ram[a];
                self.registers.set(i, v);
            }
            i = i + 1;
        }
    }

    /// The draw instruction: XOR an `n`-row sprite read from memory at the
    /// index register onto the screen at the wrapped corner given by the two
    /// operand registers, clipping at the edges, and report any erased pixel
    /// in the flag register.
    #[verifier::rlimit(30)]
    fn exec_display(&mut self, rx: u8, ry: u8, n: u8)
        requires
            old(self).wf(),
            rx < 16,
            ry < 16,
        ensures
            final(self).wf(),
            final(self)@ =~= spec_draw(old(self)@, rx, ry, n),
    {
        let ghost m = self@;
        let x0 = (self.registers[rx as usize] % 64) as usize;
        let y0 = (self.registers[ry as usize] % 32) as usize;
        self.set_flag_register(0);
        let index = self.index_register as usize;
        let mut max_i = n as usize;
        if max_i > DISPLAY_HEIGHT - y0 {
            max_i = DISPLAY_HEIGHT - y0;
        }
        if index >= MEMORY_SIZE {
            max_i = 0;
        } else if max_i > MEMORY_SIZE - index {
            max_i = MEMORY_SIZE - index;
        }
        let max_j = if DISPLAY_WIDTH - x0 < 8 {
            DISPLAY_WIDTH - x0
        } else {
            8
        };
        proof {
            assert(max_i == spec_row_limit(n, y0 as int, index as int));
            assert(max_j == spec_col_limit(x0 as int));
        }
        let mut i: usize = 0;
        while i < max_i
            invariant
                i <= max_i,
                rx < 16,
                ry < 16,
                m.regs.len() == 16,
                m.ram.len() == MEMORY_SIZE,
                m.pixels.len() == DISPLAY_CELLS,
                x0 == (m.regs[rx as int] as int) % 64,
                y0 == (m.regs[ry as int] as int) % 32,
                x0 < 64,
                y0 < 32,
                index == m.index,
                max_i == spec_row_limit(n, y0 as int, index as int),
                max_j == spec_col_limit(x0 as int),
                max_j <= 8,
                x0 + max_j <= 64,
                y0 + max_i <= 32,
                max_i == 0 || index + max_i <= MEMORY_SIZE,
                max_i <= n,
                self.display.wf(),
                self@.ram == m.ram,
                self@.stack == m.stack,
                self@.stack_index == m.stack_index,
                self@.pc == m.pc,
                self@.index == m.index,
                self@.keys == m.keys,
                self@.timers == m.timers,
                self.stack == old(self).stack,
                self.timers == old(self).timers,
                self@.regs.len() == 16,
                self@.regs =~= m.regs.update(15, self@.regs[15]),
                self@.regs[15] == 0 || self@.regs[15] == 1,
                (self@.regs[15] == 1) <==> (exists|k: int|
                    0 <= k < DISPLAY_CELLS && spec_sprite_hits(
                        m.ram,
                        m.index,
                        x0 as int,
                        y0 as int,
                        n,
                        k,
                    ) && spec_draw_visited(x0 as int, y0 as int, k, i as int, 0) && m.pixels[k]),
                self@.pixels.len() == DISPLAY_CELLS,
                forall|k: int|
                    0 <= k < DISPLAY_CELLS ==> self@.pixels[k] == (if spec_sprite_hits(
                        m.ram,
                        m.index,
                        x0 as int,
                        y0 as int,
                        n,
                        k,
                    ) && spec_draw_visited(x0 as int, y0 as int, k, i as int, 0) {
                        !m.pixels[k]
                    } else {
                        m.pixels[k]
                    }),
            decreases max_i - i,
        {
            let sprite = self.ram[index + i];
            let mut j: usize = 0;
            while j < max_j
                invariant
                    j <= max_j,
                    i < max_i,
                    rx < 16,
                    ry < 16,
                    m.regs.len() == 16,
                    m.ram.len() == MEMORY_SIZE,
                    m.pixels.len() == DISPLAY_CELLS,
                    x0 == (m.regs[rx as int] as int) % 64,
                    y0 == (m.regs[ry as int] as int) % 32,
                    x0 < 64,
                    y0 < 32,
                    index == m.index,
                    max_i == spec_row_limit(n, y0 as int, index as int),
                    max_j == spec_col_limit(x0 as int),
                    max_j <= 8,
                    x0 + max_j <= 64,
                    y0 + max_i <= 32,
                    max_i == 0 || index + max_i <= MEMORY_SIZE,
                    max_i <= n,
                    sprite == m.ram[m.index + i],
                    self.display.wf(),
                    self@.ram == m.ram,
                    self@.stack == m.stack,
                    self@.stack_index == m.stack_index,
                    self@.pc == m.pc,
                    self@.index == m.index,
                    self@.keys == m.keys,
                    self@.timers == m.timers,
                    self.stack == old(self).stack,
                    self.timers == old(self).timers,
                    self@.regs.len() == 16,
                    self@.regs =~= m.regs.update(15, self@.regs[15]),
                    self@.regs[15] == 0 || self@.regs[15] == 1,
                    (self@.regs[15] == 1) <==> (exists|k: int|
                        0 <= k < DISPLAY_CELLS && spec_sprite_hits(
                            m.ram,
                            m.index,
                            x0 as int,
                            y0 as int,
                            n,
                            k,
                        ) && spec_draw_visited(x0 as int, y0 as int, k, i as int, j as int)
                            && m.pixels[k]),
                    self@.pixels.len() == DISPLAY_CELLS,
                    forall|k: int|
                        0 <= k < DISPLAY_CELLS ==> self@.pixels[k] == (if spec_sprite_hits(
                            m.ram,
                            m.index,
                            x0 as int,
                            y0 as int,
                            n,
                            k,
                        ) && spec_draw_visited(x0 as int, y0 as int, k, i as int, j as int) {
                            !m.pixels[k]
                        } else {
                            m.pixels[k]
                        }),
                decreases max_j - j,
            {
                let shift: u8 = (7 - j) as u8;
                let bit = (sprite >> shift) & 1;
                let px = x0 + j;
                let py = y0 + i;
                let ghost kk: int = py * 64 + px;
                proof {
                    lemma_fundamental_div_mod_converse(kk, 64, py as int, px as int);
                    assert(kk / 64 == py as int && kk % 64 == px as int);
                    assert(0 <= kk < DISPLAY_CELLS);
                    assert(spec_sprite_hits(m.ram, m.index, x0 as int, y0 as int, n, kk) <==> bit
                        == 1);
                    assert(!spec_draw_visited(x0 as int, y0 as int, kk, i as int, j as int));
                }
                let ghost before = self@;
                if bit == 1 {
                    if self.display.pixel(px, py) {
                        self.display.set_pixel(px, py, false);
                        self.set_flag_register(1);
                    } else {
                        self.display.set_pixel(px, py, true);
                    }
                }
                proof {
                    assert forall|k: int| 0 <= k < DISPLAY_CELLS && k != kk implies (
                    spec_draw_visited(x0 as int, y0 as int, k, i as int, j + 1)
                        <==> spec_draw_visited(x0 as int, y0 as int, k, i as int, j as int)) by {
                        lemma_fundamental_div_mod(k, 64);
                    }
                    assert(spec_draw_visited(x0 as int, y0 as int, kk, i as int, j + 1));
                    assert forall|k: int| 0 <= k < DISPLAY_CELLS implies self@.pixels[k] == (
                    if spec_sprite_hits(m.ram, m.index, x0 as int, y0 as int, n, k)
                        && spec_draw_visited(x0 as int, y0 as int, k, i as int, j + 1) {
                        !m.pixels[k]
                    } else {
                        m.pixels[k]
                    }) by {}
                    if self@.regs[15] == 1 {
                        if before.regs[15] == 1 {
                            let k0 = choose|k: int|
                                0 <= k < DISPLAY_CELLS && spec_sprite_hits(
                                    m.ram,
                                    m.index,
                                    x0 as int,
                                    y0 as int,
                                    n,
                                    k,
                                ) && spec_draw_visited(x0 as int, y0 as int, k, i as int, j as int)
                                    && m.pixels[k];
                            assert(spec_draw_visited(x0 as int, y0 as int, k0, i as int, j + 1));
                            assert(0 <= k0 < DISPLAY_CELLS && spec_sprite_hits(
                                m.ram,
                                m.index,
                                x0 as int,
                                y0 as int,
                                n,
                                k0,
                            ) && spec_draw_visited(x0 as int, y0 as int, k0, i as int, j + 1)
                                && m.pixels[k0]);
                        } else {
                            assert(0 <= kk < DISPLAY_CELLS && spec_sprite_hits(
                                m.ram,
                                m.index,
                                x0 as int,
                                y0 as int,
                                n,
                                kk,
                            ) && spec_draw_visited(x0 as int, y0 as int, kk, i as int, j + 1)
                                && m.pixels[kk]);
                        }
                    } else {
                        assert forall|k: int|
                            0 <= k < DISPLAY_CELLS && spec_sprite_hits(
                                m.ram,
                                m.index,
                                x0 as int,
                                y0 as int,
                                n,
                                k,
                            ) && spec_draw_visited(x0 as int, y0 as int, k, i as int, j + 1) implies
                            !m.pixels[k] by {}
                    }
                }
                j = j + 1;
            }
            proof {
                assert forall|k: int| 0 <= k < DISPLAY_CELLS implies (spec_sprite_hits(
                    m.ram,
                    m.index,
                    x0 as int,
                    y0 as int,
                    n,
                    k,
                ) ==> (spec_draw_visited(x0 as int, y0 as int, k, (i + 1) as int, 0)
                    <==> spec_draw_visited(x0 as int, y0 as int, k, i as int, max_j as int))) by {
                    lemma_fundamental_div_mod(k, 64);
                }
            }
            i = i + 1;
        }
        proof {
            assert forall|k: int|
                0 <= k < DISPLAY_CELLS && spec_sprite_hits(
                    m.ram,
                    m.index,
                    x0 as int,
                    y0 as int,
                    n,
                    k,
                ) implies spec_draw_visited(x0 as int, y0 as int, k, max_i as int, 0) by {
                lemma_fundamental_div_mod(k, 64);
            }
            assert(self@.pixels =~= spec_draw_pixels(
                m.pixels,
                m.ram,
                m.index,
                x0 as int,
                y0 as int,
                n,
            ));
            assert(self@.regs =~= m.regs.update(
                15,
                if spec_collision(m.pixels, m.ram, m.index, x0 as int, y0 as int, n) {
                    1u8
                } else {
                    0u8
                },
            ));
            assert(self@ =~= spec_draw(m, rx, ry, n));
        }
    }

    /// One whole fetch-decode-execute step, deterministic in its inputs:
    /// `now_ms` is the wall-clock sample the timer tick uses and `random`
    /// the byte the random instruction masks. The program counter advances
    /// by two before the instruction's own control flow applies; the
    /// edge-triggered keypad is cleared and the timers tick once, whichever
    /// instruction ran.
    #[verifier::rlimit(60)]
    pub fn execute_one_at(&mut self, now_ms: u64, random: u8)
        requires
            old(self).wf(),
        ensures
            final(self).wf(),
            final(self)@ == spec_step(old(self)@, now_ms, random),
    {
        let ghost m0 = self@;
        let instruction = self.decode_next_instruction();
        self.program_counter = (self.program_counter + 2) % MEMORY_SIZE;
        let ghost m1 = self@;
        proof {
            assert(m1 =~= (MachineView { pc: spec_bump(m0.pc), ..m0 }));
            assert(self.wf());
        }
        match instruction {
            Instruction::Zero => {
                proof {
                    assert(self@ =~= spec_apply(m1, instruction, random));
                }
            },
            Instruction::ClearScreen => {
                self.display.clear();
                proof {
                    assert(self@ =~= spec_apply(m1, instruction, random));
                }
            },
            Instruction::Jump(v) => {
                self.program_counter = v as usize;
                proof {
                    assert(self@ =~= spec_apply(m1, instruction, random));
                }
            },
            Instruction::SetRegToVal(reg, val) => {
                self.registers.set(reg as usize, val);
                proof {
                    assert(self@ =~= spec_apply(m1, instruction, random));
                }
            },
            Instruction::AddValToReg(reg, val) => {
                let v0 = self.registers[reg as usize];
                let nv = (((v0 as u16) + (val as u16)) % 256) as u8;
                self.registers.set(reg as usize, nv);
                proof {
                    assert(self@ =~= spec_apply(m1, instruction, random));
                }
            },
            Instruction::SetIndexRegister(val) => {
                self.index_register = val;
                proof {
                    assert(self@ =~= spec_apply(m1, instruction, random));
                }
            },
            Instruction::Display(rx, ry, n) => {
                self.exec_display(rx, ry, n);
                proof {
                    assert(self@ =~= spec_apply(m1, instruction, random));
                }
            },
            Instruction::Subroutine(v) => {
                let ret = self.program_counter as u16;
                self.push_stack(ret);
                self.program_counter = v as usize;
                proof {
                    assert(self@ =~= spec_apply(m1, instruction, random));
                }
            },
            Instruction::Return => {
                let addr = self.pop_stack();
                self.program_counter = addr as usize;
                proof {
                    assert(self@ =~= spec_apply(m1, instruction, random));
                }
            },
            Instruction::Unknown(_bytes, _location) => {
                proof {
                    assert(self@ =~= spec_apply(m1, instruction, random));
                }
            },
            Instruction::SkipIfEqualRegVal(reg, val) => {
                if self.registers[reg as usize] == val {
                    self.program_counter = (self.program_counter + 2) % MEMORY_SIZE;
                }
                proof {
                    assert(self@ =~= spec_apply(m1, instruction, random));
                }
            },
            Instruction::SkipIfNotEqualRegVal(reg, val) => {
                if self.registers[reg as usize] != val {
                    self.program_counter = (self.program_counter + 2) % MEMORY_SIZE;
                }
                proof {
                    assert(self@ =~= spec_apply(m1, instruction, random));
                }
            },
            Instruction::SkipIfEqualRegReg(reg1, reg2) => {
                if self.registers[reg1 as usize] == self.registers[reg2 as usize] {
                    self.program_counter = (self.program_counter + 2) % MEMORY_SIZE;
                }
                proof {
                    assert(self@ =~= spec_apply(m1, instruction, random));
                }
            },
            Instruction::SkipIfNotEqualRegReg(reg1, reg2) => {
                if self.registers[reg1 as usize] != self.registers[reg2 as usize] {
                    self.program_counter = (self.program_counter + 2) % MEMORY_SIZE;
                }
                proof {
                    assert(self@ =~= spec_apply(m1, instruction, random));
                }
            },
            Instruction::SetRegToReg(rx, ry) => {
                let v = self.registers[ry as usize];
                self.registers.set(rx as usize, v);
                proof {
                    assert(self@ =~= spec_apply(m1, instruction, random));
                }
            },
            Instruction::Or(rx, ry) => {
                let v = self.registers[rx as usize] | self.registers[ry as usize];
                self.registers.set(rx as usize, v);
                proof {
                    assert(self@ =~= spec_apply(m1, instruction, random));
                }
            },
            Instruction::And(rx, ry) => {
                let v = self.registers[rx as usize] & self.registers[ry as usize];
                self.registers.set(rx as usize, v);
                proof {
                    assert(self@ =~= spec_apply(m1, instruction, random));
                }
            },
            Instruction::Xor(rx, ry) => {
                let v = self.registers[rx as usize] ^ self.registers[ry as usize];
                self.registers.set(rx as usize, v);
                proof {
                    assert(self@ =~= spec_apply(m1, instruction, random));
                }
            },
            Instruction::Add(rx, ry) => {
                let v1 = self.registers[rx as usize];
                let v2 = self.registers[ry as usize];
                if (v1 as u16) + (v2 as u16) > 255 {
                    self.set_flag_register(1);
                } else {
                    self.set_flag_register(0);
                }
                let nv = (((v1 as u16) + (v2 as u16)) % 256) as u8;
                self.registers.set(rx as usize, nv);
                proof {
                    assert(self@ =~= spec_apply(m1, instruction, random));
                }
            },
            Instruction::SubtractXY(rx, ry) => {
                let v1 = self.registers[rx as usize];
                let v2 = self.registers[ry as usize];
                self._execute_subtract(rx, v1, v2);
                proof {
                    assert(self@ =~= spec_apply(m1, instruction, random));
                }
            },
            Instruction::SubtractYX(rx, ry) => {
                let v1 = self.registers[ry as usize];
                let v2 = self.registers[rx as usize];
                self._execute_subtract(rx, v1, v2);
                proof {
                    assert(self@ =~= spec_apply(m1, instruction, random));
                }
            },
            Instruction::ShiftLeft(rx, _ry) => {
                let v = self.registers[rx as usize];
                self.set_flag_register((v >> 7) & 1);
                self.registers.set(rx as usize, v << 1);
                proof {
                    assert(self@ =~= spec_apply(m1, instruction, random));
                }
            },
            Instruction::ShiftRight(rx, _ry) => {
                let v = self.registers[rx as usize];
                self.set_flag_register(v & 1);
                self.registers.set(rx as usize, v >> 1);
                proof {
                    assert(self@ =~= spec_apply(m1, instruction, random));
                }
            },
            Instruction::JumpWithOffset(offset) => {
                self.program_counter = ((offset as usize) + (self.registers[0] as usize))
                    % MEMORY_SIZE;
                proof {
                    assert(self@ =~= spec_apply(m1, instruction, random));
                }
            },
            Instruction::Random(rx, v) => {
                self.registers.set(rx as usize, random & v);
                proof {
                    assert(self@ =~= spec_apply(m1, instruction, random));
                }
            },
            Instruction::SkipIfKeyPressed(vx) => {
                let kv = self.registers[vx as usize];
                let pressed = kv < 16 && self.key_pressed[kv as usize];
                if pressed {
                    self.program_counter = (self.program_counter + 2) % MEMORY_SIZE;
                }
                proof {
                    assert(self@ =~= spec_apply(m1, instruction, random));
                }
            },
            Instruction::SkipIfKeyNotPressed(vx) => {
                let kv = self.registers[vx as usize];
                let pressed = kv < 16 && self.key_pressed[kv as usize];
                if !pressed {
                    self.program_counter = (self.program_counter + 2) % MEMORY_SIZE;
                }
                proof {
                    assert(self@ =~= spec_apply(m1, instruction, random));
                }
            },
            Instruction::ReadDelayTimer(vx) => {
                let v = self.timers.delay;
                self.registers.set(vx as usize, v);
                proof {
                    assert(self@ =~= spec_apply(m1, instruction, random));
                }
            },
            Instruction::SetDelayTimer(vx) => {
                self.timers.delay = self.registers[vx as usize];
                proof {
                    assert(self@ =~= spec_apply(m1, instruction, random));
                }
            },
            Instruction::SetSoundTimer(vx) => {
                self.timers.sound = self.registers[vx as usize];
                proof {
                    assert(self@ =~= spec_apply(m1, instruction, random));
                }
            },
            Instruction::AddToIndex(vx) => {
                let rv = self.registers[vx as usize];
                let ni = ((self.index_register as usize) + (rv as usize)) % 0x10000;
                self.index_register = ni as u16;
                if self.index_register > 0x1000 {
                    self.set_flag_register(1);
                }
                proof {
                    assert(self@ =~= spec_apply(m1, instruction, random));
                }
            },
            Instruction::GetKey(vx) => {
                let kf = self.first_pressed_key();
                if kf < 16 {
                    self.registers.set(vx as usize, kf as u8);
                } else {
                    self.program_counter = (self.program_counter + 4094) % MEMORY_SIZE;
                }
                proof {
                    assert(self@ =~= spec_apply(m1, instruction, random));
                }
            },
            Instruction::FontCharacter(vx) => {
                let c = self.registers[vx as usize] & 0x0F;
                let addr = self.get_character_address(c);
                self.index_register = addr;
                proof {
                    let ghost v = m1.regs[vx as int];
                    assert(v & 0x0F < 16) by (bit_vector);
                    assert(self@ =~= spec_apply(m1, instruction, random));
                }
            },
            Instruction::ConvertToDecimal(vx) => {
                let val = self.registers[vx as usize];
                let idx = self.index_register as usize;
                if idx < MEMORY_SIZE {
                    self.ram.set(idx, val / 100);
                }
                if idx + 1 < MEMORY_SIZE {
                    self.ram.set(idx + 1, (val / 10) % 10);
                }
                if idx + 2 < MEMORY_SIZE {
                    self.ram.set(idx + 2, val % 10);
                }
                proof {
                    assert(self@ =~= spec_apply(m1, instruction, random));
                }
            },
            Instruction::RegistersToMemory(vx) => {
                self.store_registers(vx);
                proof {
                    assert(self@ =~= spec_apply(m1, instruction, random));
                }
            },
            Instruction::MemoryToRegisters(vx) => {
                self.load_registers(vx);
                proof {
                    assert(self@ =~= spec_apply(m1, instruction, random));
                }
            },
        }
        let ghost m2 = spec_apply(m1, instruction, random);
        proof {
            assert(self@ == m2);
            assert(self.wf());
        }
        let mut k: usize = 0;
        while k < 16
            invariant
                k <= 16,
                self.wf(),
                self@.keys.len() == 16,
                forall|j: int| 0 <= j < k ==> self@.keys[j] == false,
                self@.ram == m2.ram,
                self@.regs == m2.regs,
                self@.stack == m2.stack,
                self@.stack_index == m2.stack_index,
                self@.pc == m2.pc,
                self@.index == m2.index,
                self@.pixels == m2.pixels,
                self@.timers == m2.timers,
            decreases 16 - k,
        {
            self.key_pressed.set(k, false);
            k = k + 1;
        }
        let ghost m3 = self@;
        proof {
            assert(m3.keys =~= Seq::new(16, |i: int| false));
            assert(m3 =~= (MachineView { keys: Seq::new(16, |i: int| false), ..m2 }));
        }
        self.timers.tick(now_ms);
        proof {
            assert(self@ =~= spec_step(m0, now_ms, random));
        }
    }

    /// One whole fetch-decode-execute step against the live wall clock and
    /// random generator: some clock sample and some random byte drive the
    /// deterministic step.
    pub fn execute_one(&mut self)
        requires
            old(self).wf(),
        ensures
            final(self).wf(),
            exists|t: u64, r: u8| final(self)@ == spec_step(old(self)@, t, r),
    {
        let t = now();
        let r = random_byte();
        self.execute_one_at(t, r);
        proof {
            assert(self@ == spec_step(old(self)@, t, r));
        }
    }
}

/// Byte `b` of the big-endian byte stream that a sequence of 16-bit words
/// encodes: the high byte of word `b / 2` when `b` is even, its low byte
/// when odd.
pub open spec fn spec_word_byte(words: Seq<u16>, b: int) -> u8 {
    if b % 2 == 0 {
        (((words[b / 2] & 0xFF00) >> 8) as u8)
    } else {
        ((words[b / 2] & 0x00FF) as u8)
    }
}

impl Default for Machine {
    /// A fresh machine: cleared memory holding only the font table, cleared
    /// registers, stack, keypad and display, the program counter at 0, and
    /// timers anchored at the current wall clock.
    fn default() -> (r: Machine)
        ensures
            r.wf(),
            r@.pc == 0,
            r@.index == 0,
            r@.stack_index == 0,
            forall|a: int|
                0 <= a < MEMORY_SIZE ==> r@.ram[a] == (if FONT_START_ADDRESS <= a
                    < FONT_START_ADDRESS + 80 {
                    spec_font()[a - FONT_START_ADDRESS]
                } else {
                    0u8
                }),
            forall|i: int| 0 <= i < 16 ==> r@.regs[i] == 0,
            forall|i: int| 0 <= i < STACK_CAPACITY ==> r@.stack[i] == 0,
            forall|i: int| 0 <= i < 16 ==> r@.keys[i] == false,
            forall|k: int| 0 <= k < DISPLAY_CELLS ==> r@.pixels[k] == false,
            r@.timers.delay == 0,
            r@.timers.sound == 0,
            r@.timers.remainder == 0,
    {
        let mut ram: Vec<u8> = Vec::new();
        let mut i: usize = 0;
        while i < MEMORY_SIZE
            invariant
                i <= MEMORY_SIZE,
                ram@.len() == i,
                forall|a: int| 0 <= a < i ==> ram@[a] == 0,
            decreases MEMORY_SIZE - i,
        {
            ram.push(0);
            i = i + 1;
        }
        let mut stack: Vec<u16> = Vec::new();
        let mut i: usize = 0;
        while i < STACK_CAPACITY
            invariant
                i <= STACK_CAPACITY,
                stack@.len() == i,
                forall|a: int| 0 <= a < i ==> stack@[a] == 0,
            decreases STACK_CAPACITY - i,
        {
            stack.push(0);
            i = i + 1;
        }
        let mut registers: Vec<u8> = Vec::new();
        let mut i: usize = 0;
        while i < 16
            invariant
                i <= 16,
                registers@.len() == i,
                forall|a: int| 0 <= a < i ==> registers@[a] == 0,
            decreases 16 - i,
        {
            registers.push(0);
            i = i + 1;
        }
        let mut key_pressed: Vec<bool> = Vec::new();
        let mut i: usize = 0;
        while i < 16
            invariant
                i <= 16,
                key_pressed@.len() == i,
                forall|a: int| 0 <= a < i ==> key_pressed@[a] == false,
            decreases 16 - i,
        {
            key_pressed.push(false);
            i = i + 1;
        }
        let mut machine = Machine {
            display: Display::default(),
            ram,
            stack,
            stack_index: 0,
            program_counter: 0,
            index_register: 0,
            registers,
            key_pressed,
            timers: Timers::new(now()),
        };
        machine.init_font();
        machine
    }
}

/// The program counter two bytes on, wrapped to the 4096-byte address
/// space.
pub open spec fn spec_bump(pc: int) -> int {
    (pc + 2) % 4096
}

/// The big-endian 16-bit word at the program counter.
pub open spec fn spec_fetch_word(m: MachineView) -> u16 {
    (((m.ram[m.pc] as u16) << 8) | (m.ram[(m.pc + 1) % 4096] as u16))
}

/// The machine with register `r` set to `v`.
pub open spec fn spec_upd_reg(m: MachineView, r: u8, v: u8) -> MachineView {
    MachineView { regs: m.regs.update(r as int, v), ..m }
}

/// The machine after pushing `v`: a push onto a full stack first clamps the
/// depth back to the last slot, overwriting the newest entry rather than
/// failing.
pub open spec fn spec_push(m: MachineView, v: u16) -> MachineView {
    let si = if m.stack_index >= STACK_CAPACITY {
        (STACK_CAPACITY - 1) as int
    } else {
        m.stack_index
    };
    MachineView { stack: m.stack.update(si, v), stack_index: si + 1, ..m }
}

/// The slot a pop reads: a pop from an empty stack is clamped to re-read
/// slot 0 rather than failing.
pub open spec fn spec_popped_index(m: MachineView) -> int {
    if m.stack_index < 1 {
        0
    } else {
        m.stack_index - 1
    }
}

/// The first pressed key at or after index `i`, or 16 if none is pressed.
pub open spec fn spec_first_pressed_from(keys: Seq<bool>, i: int) -> int
    decreases 16 - i,
{
    if i < 0 || i >= 16 {
        16
    } else if keys[i] {
        i
    } else {
        spec_first_pressed_from(keys, i + 1)
    }
}

/// The lowest-indexed pressed key, or 16 if none is pressed.
pub open spec fn spec_first_pressed(keys: Seq<bool>) -> int {
    spec_first_pressed_from(keys, 0)
}

/// Whether the sprite of `n` rows read from `ram` at `index`, drawn with its
/// top-left corner at `(x0, y0)`, has a set bit covering flat pixel index
/// `k`. Rows whose source byte would lie beyond memory are dropped, as are
/// columns beyond the right edge and rows beyond the bottom edge (`k` ranges
/// over the grid only).
pub open spec fn spec_sprite_hits(
    ram: Seq<u8>,
    index: int,
    x0: int,
    y0: int,
    n: u8,
    k: int,
) -> bool {
    let y = k / 64;
    let x = k % 64;
    &&& y0 <= y < y0 + n
    &&& x0 <= x < x0 + 8
    &&& index + (y - y0) < 4096
    &&& ((ram[index + (y - y0)] >> ((7 - (x - x0)) as u8)) & 1) == 1
}

/// The pixel grid after the sprite is drawn: every covered pixel is XORed,
/// every other pixel is untouched.
pub open spec fn spec_draw_pixels(
    pixels: Seq<bool>,
    ram: Seq<u8>,
    index: int,
    x0: int,
    y0: int,
    n: u8,
) -> Seq<bool> {
    Seq::new(
        DISPLAY_CELLS as nat,
        |k: int|
            if spec_sprite_hits(ram, index, x0, y0, n, k) {
                !pixels[k]
            } else {
                pixels[k]
            },
    )
}

/// Whether the draw erases any pixel: some covered pixel was already on.
pub open spec fn spec_collision(
    pixels: Seq<bool>,
    ram: Seq<u8>,
    index: int,
    x0: int,
    y0: int,
    n: u8,
) -> bool {
    exists|k: int| 0 <= k < DISPLAY_CELLS && spec_sprite_hits(ram, index, x0, y0, n, k) && pixels[k]
}

/// The machine after the draw instruction: the sprite corner is the operand
/// registers' values wrapped once onto the grid, covered pixels are XORed,
/// and the flag register reports whether any pixel was erased.
pub open spec fn spec_draw(m: MachineView, rx: u8, ry: u8, n: u8) -> MachineView {
    let x0 = (m.regs[rx as int] as int) % 64;
    let y0 = (m.regs[ry as int] as int) % 32;
    MachineView {
        pixels: spec_draw_pixels(m.pixels, m.ram, m.index, x0, y0, n),
        regs: m.regs.update(
            15,
            if spec_collision(m.pixels, m.ram, m.index, x0, y0, n) {
                1u8
            } else {
                0u8
            },
        ),
        ..m
    }
}

/// How many sprite rows the draw loop walks: `n`, cut to the rows that fit
/// above the bottom edge and whose source byte lies inside memory.
pub open spec fn spec_row_limit(n: u8, y0: int, index: int) -> int {
    let a = if n > 32 - y0 {
        32 - y0
    } else {
        n as int
    };
    if index >= 4096 {
        0
    } else if a > 4096 - index {
        4096 - index
    } else {
        a
    }
}

/// How many sprite columns the draw loop walks: 8, cut to the columns that
/// fit left of the right edge.
pub open spec fn spec_col_limit(x0: int) -> int {
    if 64 - x0 < 8 {
        64 - x0
    } else {
        8
    }
}

/// Whether the draw loop has already visited flat pixel index `k` when it
/// stands at row `i`, column `j`: all earlier rows wholly, and the earlier
/// columns of row `i`.
pub open spec fn spec_draw_visited(x0: int, y0: int, k: int, i: int, j: int) -> bool {
    let y = k / 64;
    let x = k % 64;
    y - y0 < i || (y - y0 == i && x - x0 < j)
}

/// Memory after writing byte `v` at address `a`, unless `a` lies outside
/// the address space, in which case the write is dropped.
pub open spec fn spec_maybe_store(ram: Seq<u8>, a: int, v: u8) -> Seq<u8> {
    if 0 <= a < MEMORY_SIZE {
        ram.update(a, v)
    } else {
        ram
    }
}

/// The machine after storing the three decimal digits of register `vx` at
/// the index register's address, hundreds first; out-of-memory bytes are
/// dropped.
pub open spec fn spec_bcd(m: MachineView, vx: u8) -> MachineView {
    let val = m.regs[vx as int];
    MachineView {
        ram: spec_maybe_store(
            spec_maybe_store(
                spec_maybe_store(m.ram, m.index, ((val / 100) as u8)),
                m.index + 1,
                (((val / 10) % 10) as u8),
            ),
            m.index + 2,
            ((val % 10) as u8),
        ),
        ..m
    }
}

/// The machine after dumping registers 0 through `vx` inclusive to memory
/// starting at the index register; out-of-memory bytes are dropped.
pub open spec fn spec_store_regs(m: MachineView, vx: u8) -> MachineView {
    MachineView {
        ram: Seq::new(
            MEMORY_SIZE as nat,
            |a: int|
                if m.index <= a < m.index + vx + 1 {
                    m.regs[a - m.index]
                } else {
                    m.ram[a]
                },
        ),
        ..m
    }
}

/// The machine after loading registers 0 through `vx` inclusive from memory
/// starting at the index register; registers whose source byte would lie
/// beyond memory are untouched.
pub open spec fn spec_load_regs(m: MachineView, vx: u8) -> MachineView {
    MachineView {
        regs: Seq::new(
            16,
            |i: int|
                if i <= vx && m.index + i < MEMORY_SIZE {
                    m.ram[m.index + i]
                } else {
                    m.regs[i]
                },
        ),
        ..m
    }
}

/// The subtraction shared by the two subtract instructions: the flag
/// register reports no-borrow (minuend at least subtrahend), then register
/// `rx` receives the wrapped difference.
pub open spec fn spec_subtract(m: MachineView, rx: u8, v1: u8, v2: u8) -> MachineView {
    let f: u8 = if v1 >= v2 {
        1
    } else {
        0
    };
    MachineView {
        regs: m.regs.update(15, f).update(rx as int, (((v1 - v2) % 256) as u8)),
        ..m
    }
}

/// The effect of one decoded instruction on the machine, taken after the
/// program counter has already advanced past it. `random` is the byte the
/// random instruction masks; every other instruction ignores it.
pub open spec fn spec_apply(m: MachineView, instr: Instruction, random: u8) -> MachineView {
    match instr {
        Instruction::Zero => m,
        Instruction::ClearScreen => MachineView {
            pixels: Seq::new(DISPLAY_CELLS as nat, |k: int| false),
            ..m
        },
        Instruction::Jump(nnn) => MachineView { pc: nnn as int, ..m },
        Instruction::SetRegToVal(rx, v) => spec_upd_reg(m, rx, v),
        Instruction::AddValToReg(rx, v) => spec_upd_reg(
            m,
            rx,
            (((m.regs[rx as int] + v) % 256) as u8),
        ),
        Instruction::SetIndexRegister(nnn) => MachineView { index: nnn as int, ..m },
        Instruction::Display(rx, ry, n) => spec_draw(m, rx, ry, n),
        Instruction::Subroutine(nnn) => MachineView {
            pc: nnn as int,
            ..spec_push(m, (m.pc as u16))
        },
        Instruction::Return => MachineView {
            pc: m.stack[spec_popped_index(m)] as int,
            stack_index: spec_popped_index(m),
            ..m
        },
        Instruction::SkipIfEqualRegVal(rx, v) => if m.regs[rx as int] == v {
            MachineView { pc: spec_bump(m.pc), ..m }
        } else {
            m
        },
        Instruction::SkipIfNotEqualRegVal(rx, v) => if m.regs[rx as int] != v {
            MachineView { pc: spec_bump(m.pc), ..m }
        } else {
            m
        },
        Instruction::SkipIfEqualRegReg(rx, ry) => if m.regs[rx as int] == m.regs[ry as int] {
            MachineView { pc: spec_bump(m.pc), ..m }
        } else {
            m
        },
        Instruction::SkipIfNotEqualRegReg(rx, ry) => if m.regs[rx as int] != m.regs[ry as int] {
            MachineView { pc: spec_bump(m.pc), ..m }
        } else {
            m
        },
        Instruction::SetRegToReg(rx, ry) => spec_upd_reg(m, rx, m.regs[ry as int]),
        Instruction::Or(rx, ry) => spec_upd_reg(m, rx, m.regs[rx as int] | m.regs[ry as int]),
        Instruction::And(rx, ry) => spec_upd_reg(m, rx, m.regs[rx as int] & m.regs[ry as int]),
        Instruction::Xor(rx, ry) => spec_upd_reg(m, rx, m.regs[rx as int] ^ m.regs[ry as int]),
        Instruction::Add(rx, ry) => {
            let v1 = m.regs[rx as int];
            let v2 = m.regs[ry as int];
            let f: u8 = if v1 + v2 > 255 {
                1
            } else {
                0
            };
            MachineView {
                regs: m.regs.update(15, f).update(rx as int, (((v1 + v2) % 256) as u8)),
                ..m
            }
        },
        Instruction::SubtractXY(rx, ry) => spec_subtract(
            m,
            rx,
            m.regs[rx as int],
            m.regs[ry as int],
        ),
        Instruction::SubtractYX(rx, ry) => spec_subtract(
            m,
            rx,
            m.regs[ry as int],
            m.regs[rx as int],
        ),
        Instruction::ShiftLeft(rx, _ry) => {
            let v = m.regs[rx as int];
            MachineView {
                regs: m.regs.update(15, (v >> 7) & 1).update(rx as int, v << 1),
                ..m
            }
        },
        Instruction::ShiftRight(rx, _ry) => {
            let v = m.regs[rx as int];
            MachineView { regs: m.regs.update(15, v & 1).update(rx as int, v >> 1), ..m }
        },
        Instruction::JumpWithOffset(nnn) => MachineView {
            pc: (nnn + m.regs[0]) % 4096,
            ..m
        },
        Instruction::Random(rx, v) => spec_upd_reg(m, rx, random & v),
        Instruction::SkipIfKeyPressed(vx) => {
            let kv = m.regs[vx as int];
            if kv < 16 && m.keys[kv as int] {
                MachineView { pc: spec_bump(m.pc), ..m }
            } else {
                m
            }
        },
        Instruction::SkipIfKeyNotPressed(vx) => {
            let kv = m.regs[vx as int];
            if !(kv < 16 && m.keys[kv as int]) {
                MachineView { pc: spec_bump(m.pc), ..m }
            } else {
                m
            }
        },
        Instruction::ReadDelayTimer(vx) => spec_upd_reg(m, vx, m.timers.delay),
        Instruction::SetDelayTimer(vx) => MachineView {
            timers: Timers { delay: m.regs[vx as int], ..m.timers },
            ..m
        },
        Instruction::SetSoundTimer(vx) => MachineView {
            timers: Timers { sound: m.regs[vx as int], ..m.timers },
            ..m
        },
        Instruction::AddToIndex(vx) => {
            let ni = (m.index + m.regs[vx as int]) % 0x10000;
            MachineView {
                index: ni,
                regs: if ni > 0x1000 {
                    m.regs.update(15, 1u8)
                } else {
                    m.regs
                },
                ..m
            }
        },
        Instruction::GetKey(vx) => {
            let kf = spec_first_pressed(m.keys);
            if kf < 16 {
                spec_upd_reg(m, vx, kf as u8)
            } else {
                MachineView { pc: (m.pc + 4094) % 4096, ..m }
            }
        },
        Instruction::FontCharacter(vx) => MachineView {
            index: FONT_START_ADDRESS + (m.regs[vx as int] & 0xF) * 4,
            ..m
        },
        Instruction::ConvertToDecimal(vx) => spec_bcd(m, vx),
        Instruction::RegistersToMemory(vx) => spec_store_regs(m, vx),
        Instruction::MemoryToRegisters(vx) => spec_load_regs(m, vx),
        Instruction::Unknown(_w, _loc) => m,
    }
}

/// One whole fetch-decode-execute step at wall-clock sample `now_ms` with
/// random byte `random`: fetch the word at the program counter, advance the
/// counter by two, apply the instruction, clear the edge-triggered keypad,
/// and tick the timers once.
pub open spec fn spec_step(m: MachineView, now_ms: u64, random: u8) -> MachineView {
    let word = spec_fetch_word(m);
    let instr = spec_decode(word, m.pc as usize);
    let m1 = MachineView { pc: spec_bump(m.pc), ..m };
    let m2 = spec_apply(m1, instr, random);
    let m3 = MachineView { keys: Seq::new(16, |i: int| false), ..m2 };
    MachineView { timers: spec_tick(m3.timers, now_ms), ..m3 }
}

/// Drawing is an XOR: the same sprite drawn twice at the same spot restores
/// every pixel. The second draw erases exactly what the first one lit, so
/// it collides exactly where the first draw found the pixel off.
pub proof fn lemma_draw_pixels_involution(
    pixels: Seq<bool>,
    ram: Seq<u8>,
    index: int,
    x0: int,
    y0: int,
    n: u8,
)
    requires
        pixels.len() == DISPLAY_CELLS,
    ensures
        spec_draw_pixels(
            spec_draw_pixels(pixels, ram, index, x0, y0, n),
            ram,
            index,
            x0,
            y0,
            n,
        ) =~= pixels,
        spec_collision(spec_draw_pixels(pixels, ram, index, x0, y0, n), ram, index, x0, y0, n)
            <==> (exists|k: int|
            0 <= k < DISPLAY_CELLS && spec_sprite_hits(ram, index, x0, y0, n, k) && !pixels[k]),
{
    let once = spec_draw_pixels(pixels, ram, index, x0, y0, n);
    assert forall|k: int| 0 <= k < DISPLAY_CELLS implies spec_draw_pixels(
        once,
        ram,
        index,
        x0,
        y0,
        n,
    )[k] == pixels[k] by {}
}

/// The draw instruction executed twice with the same operands leaves the
/// framebuffer exactly as it was (the flag register is the only register it
/// writes, so the operand registers must not be the flag register for "the
/// same spot" to hold).
pub proof fn lemma_draw_twice_restores(m: MachineView, rx: u8, ry: u8, n: u8, r1: u8, r2: u8)
    requires
        m.regs.len() == 16,
        m.pixels.len() == DISPLAY_CELLS,
        rx < 15,
        ry < 15,
    ensures
        spec_apply(
            spec_apply(m, Instruction::Display(rx, ry, n), r1),
            Instruction::Display(rx, ry, n),
            r2,
        ).pixels =~= m.pixels,
{
    let x0 = (m.regs[rx as int] as int) % 64;
    let y0 = (m.regs[ry as int] as int) % 32;
    let m1 = spec_apply(m, Instruction::Display(rx, ry, n), r1);
    assert(m1.regs[rx as int] == m.regs[rx as int]);
    assert(m1.regs[ry as int] == m.regs[ry as int]);
    lemma_draw_pixels_involution(m.pixels, m.ram, m.index, x0, y0, n);
}

/// The four conditional-skip instructions advance the program counter by an
/// extra two exactly when their comparison holds, and touch nothing else:
/// equal/not-equal against an immediate, and equal/not-equal between two
/// registers.
pub proof fn lemma_skip_iff(m: MachineView, rx: u8, ry: u8, nn: u8, random: u8)
    requires
        m.wf(),
        rx < 16,
        ry < 16,
    ensures
        m.pc + 2 < MEMORY_SIZE ==> spec_bump(m.pc) == m.pc + 2,
        spec_apply(m, Instruction::SkipIfEqualRegVal(rx, nn), random).pc == (if m.regs[rx as int]
            == nn {
            spec_bump(m.pc)
        } else {
            m.pc
        }),
        spec_apply(m, Instruction::SkipIfNotEqualRegVal(rx, nn), random).pc == (if m.regs[rx as int]
            != nn {
            spec_bump(m.pc)
        } else {
            m.pc
        }),
        spec_apply(m, Instruction::SkipIfEqualRegReg(rx, ry), random).pc == (if m.regs[rx as int]
            == m.regs[ry as int] {
            spec_bump(m.pc)
        } else {
            m.pc
        }),
        spec_apply(m, Instruction::SkipIfNotEqualRegReg(rx, ry), random).pc == (if m.regs[rx as int]
            != m.regs[ry as int] {
            spec_bump(m.pc)
        } else {
            m.pc
        }),
        spec_apply(m, Instruction::SkipIfEqualRegVal(rx, nn), random).regs == m.regs,
        spec_apply(m, Instruction::SkipIfNotEqualRegVal(rx, nn), random).regs == m.regs,
        spec_apply(m, Instruction::SkipIfEqualRegReg(rx, ry), random).regs == m.regs,
        spec_apply(m, Instruction::SkipIfNotEqualRegReg(rx, ry), random).regs == m.regs,
{
}

/// Subroutine balance: a call pushes the address of the instruction after
/// it and jumps; any later return that finds the stack as the call left it
/// resumes at that address with the stack depth restored.
pub proof fn lemma_call_return(
    m: MachineView,
    mid: MachineView,
    target: u16,
    r1: u8,
    r2: u8,
)
    requires
        m.wf(),
        m.stack_index < STACK_CAPACITY,
        mid.stack == spec_apply(m, Instruction::Subroutine(target), r1).stack,
        mid.stack_index == spec_apply(m, Instruction::Subroutine(target), r1).stack_index,
    ensures
        spec_apply(m, Instruction::Subroutine(target), r1).pc == target,
        spec_apply(m, Instruction::Subroutine(target), r1).stack_index == m.stack_index + 1,
        spec_apply(mid, Instruction::Return, r2).pc == m.pc,
        spec_apply(mid, Instruction::Return, r2).stack_index == m.stack_index,
{
    assert(spec_popped_index(mid) == m.stack_index);
    assert(mid.stack[m.stack_index] == (m.pc as u16));
}

/// Every index the first-pressed-key scan can return: either 16 with no key
/// pressed at or after `i`, or the index of a pressed key that no earlier
/// index (at or after `i`) beats.
proof fn lemma_first_pressed_props(keys: Seq<bool>, i: int)
    requires
        0 <= i <= 16,
    ensures
        i <= spec_first_pressed_from(keys, i) <= 16,
        spec_first_pressed_from(keys, i) < 16 ==> keys[spec_first_pressed_from(keys, i)],
        forall|j: int| i <= j < spec_first_pressed_from(keys, i) ==> !keys[j],
    decreases 16 - i,
{
    if i < 16 {
        if !keys[i] {
            lemma_first_pressed_props(keys, i + 1);
        }
    }
}

/// The get-key wait: executing the instruction with no key pressed leaves
/// the program counter where it was (the instruction re-executes next
/// cycle) and the registers untouched; once some key is pressed, the step
/// stores the lowest-indexed pressed key and the counter moves past the
/// instruction.
pub proof fn lemma_get_key_wait(m: MachineView, vx: u8, now_ms: u64, random: u8)
    requires
        m.wf(),
        vx < 16,
        spec_decode(spec_fetch_word(m), m.pc as usize) == Instruction::GetKey(vx),
    ensures
        (forall|i: int| 0 <= i < 16 ==> !m.keys[i]) ==> spec_step(m, now_ms, random).pc == m.pc
            && spec_step(m, now_ms, random).regs == m.regs,
        (exists|i: int| 0 <= i < 16 && m.keys[i]) ==> {
            let kf = spec_first_pressed(m.keys);
            &&& 0 <= kf < 16
            &&& m.keys[kf]
            &&& forall|j: int| 0 <= j < kf ==> !m.keys[j]
            &&& spec_step(m, now_ms, random).regs == m.regs.update(vx as int, kf as u8)
            &&& spec_step(m, now_ms, random).pc == spec_bump(m.pc)
        },
{
    lemma_first_pressed_props(m.keys, 0);
    let kf = spec_first_pressed(m.keys);
    let m1 = MachineView { pc: spec_bump(m.pc), ..m };
    if forall|i: int| 0 <= i < 16 ==> !m.keys[i] {
        assert(kf == 16) by {
            if kf < 16 {
                assert(m.keys[kf]);
            }
        }
        assert(spec_apply(m1, Instruction::GetKey(vx), random).pc == (m1.pc + 4094) % 4096);
        assert((((m.pc + 2) % 4096) + 4094) % 4096 == m.pc) by {
            if m.pc + 2 < 4096 {
                assert((m.pc + 2) % 4096 == m.pc + 2);
                assert((m.pc + 4096) % 4096 == m.pc);
            } else {
                assert((m.pc + 2) % 4096 == m.pc + 2 - 4096);
                assert(m.pc + 2 - 4096 + 4094 == m.pc);
                assert(m.pc % 4096 == m.pc);
            }
        }
    } else {
        let w = choose|i: int| 0 <= i < 16 && m.keys[i];
        assert(kf < 16) by {
            if kf == 16 {
                assert(!m.keys[w]);
            }
        }
    }
}

/// Relies on std::time::SystemTime::now: the current wall-clock time, read
/// as whole milliseconds since the Unix epoch (0 should the clock read
/// earlier than the epoch). Nothing is promised of the value: the wall
/// clock moves on its own.
#[verifier::external_body]
pub fn now() -> u64 {
    match std::time::SystemTime::now().duration_since(std::time::UNIX_EPOCH) {
        Ok(d) => d.as_millis() as u64,
        Err(_) => 0,
    }
}

/// Relies on rand::random: one byte from the thread-local random generator.
/// Nothing is promised of the value.
#[verifier::external_body]
fn random_byte() -> u8 {
    rand::random::<u8>()
}

} // verus!
