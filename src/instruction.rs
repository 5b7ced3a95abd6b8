//! The instruction set: one byte per opcode, with a two-character symbol
//! and a category for each.

use vstd::prelude::*;

verus! {

/// The number of opcodes; every byte at or above it decodes as `Nop`.
pub const INSTRUCTION_COUNT: u8 = 115;

/// The byte of the `Wall` opcode, which cursors and pastes cannot cross.
pub const WALL_BYTE: u8 = 4;

/// The kind of an opcode, used to colour the grid.
#[derive(Clone, Copy, Debug, PartialEq, Eq, Hash, Structural)]
pub enum Category {
    Special,
    Wall,
    Calculation,
    Control,
    Cursor,
    Selection,
    Memory,
}

/// A terminal colour.
#[derive(Clone, Copy, Debug, PartialEq, Eq, Hash, Structural)]
pub enum Color {
    LightMagenta,
    LightRed,
    LightGreen,
    LightCyan,
    LightBlue,
    LightGray,
    Red,
    Yellow,
    Blue,
    Gray,
    Reset,
    Unset,
}

impl Category {
    /// The colour in which opcodes of this category are shown on a terminal.
    pub open spec fn spec_color(self) -> Color {
        match self {
            Category::Special => Color::Gray,
            Category::Wall => Color::LightGray,
            Category::Calculation => Color::LightGreen,
            Category::Control => Color::LightMagenta,
            Category::Cursor => Color::LightCyan,
            Category::Selection => Color::LightRed,
            Category::Memory => Color::LightBlue,
        }
    }

    /// The red, green and blue components of this category's colour in images.
    pub open spec fn rgb(self) -> (u8, u8, u8) {
        match self {
            Category::Special => (0x30, 0x30, 0x30),
            Category::Wall => (0x8a, 0x8a, 0x8a),
            Category::Calculation => (0x8e, 0xcd, 0x00),
            Category::Control => (0xc4, 0x6a, 0xe1),
            Category::Cursor => (0x00, 0xd4, 0xd9),
            Category::Selection => (0xe1, 0x00, 0x03),
            Category::Memory => (0x74, 0xa4, 0xdc),
        }
    }

    /// The position of this category in the image palette.
    pub open spec fn spec_index(self) -> u8 {
        match self {
            Category::Special => 0,
            Category::Wall => 1,
            Category::Calculation => 2,
            Category::Control => 3,
            Category::Cursor => 4,
            Category::Selection => 5,
            Category::Memory => 6,
        }
    }

    pub fn color(self) -> (r: Color)
        ensures
            r == self.spec_color(),
    {
        match self {
            Category::Special => Color::Gray,
            Category::Wall => Color::LightGray,
            Category::Calculation => Color::LightGreen,
            Category::Control => Color::LightMagenta,
            Category::Cursor => Color::LightCyan,
            Category::Selection => Color::LightRed,
            Category::Memory => Color::LightBlue,
        }
    }

    pub fn color_rgb(self) -> (r: [u8; 3])
        ensures
            r@ == seq![self.rgb().0, self.rgb().1, self.rgb().2],
    {
        let r = match self {
            Category::Special => [0x30, 0x30, 0x30],
            Category::Wall => [0x8a, 0x8a, 0x8a],
            Category::Calculation => [0x8e, 0xcd, 0x00],
            Category::Control => [0xc4, 0x6a, 0xe1],
            Category::Cursor => [0x00, 0xd4, 0xd9],
            Category::Selection => [0xe1, 0x00, 0x03],
            Category::Memory => [0x74, 0xa4, 0xdc],
        };
        assert(r@ =~= seq![self.rgb().0, self.rgb().1, self.rgb().2]);
        r
    }

    /// The position of this category in the palette that `palette` returns.
    pub fn index(self) -> (r: u8)
        ensures
            r == self.spec_index(),
    {
        match self {
            Category::Special => 0,
            Category::Wall => 1,
            Category::Calculation => 2,
            Category::Control => 3,
            Category::Cursor => 4,
            Category::Selection => 5,
            Category::Memory => 6,
        }
    }
}

/// The colours of the seven categories, three bytes each, in category order.
pub fn palette() -> (r: Vec<u8>)
    ensures
        r@.len() == 21,
        forall|c: Category|
            #![trigger c.spec_index()]
            r@[3 * c.spec_index()] == c.rgb().0 && r@[3 * c.spec_index() + 1] == c.rgb().1 && r@[3
                * c.spec_index() + 2] == c.rgb().2,
{
    let r: Vec<u8> = vec![
        0x30, 0x30, 0x30,
        0x8a, 0x8a, 0x8a,
        0x8e, 0xcd, 0x00,
        0xc4, 0x6a, 0xe1,
        0x00, 0xd4, 0xd9,
        0xe1, 0x00, 0x03,
        0x74, 0xa4, 0xdc,
    ];
    r
}

/// One opcode. The order of the variants is the byte encoding.
#[derive(Clone, Copy, Debug, PartialEq, Eq, Hash, Structural)]
pub enum Instruction {
    Halt,
    Nop,
    FlagFork,
    CursorFork,
    Wall,
    ZeroA,
    ZeroB,
    CopyA,
    CopyB,
    SwapAB,
    SumA,
    SumB,
    NegateA,
    NegateB,
    IncA,
    IncB,
    DecA,
    DecB,
    MulA,
    MulB,
    DoubleA,
    DoubleB,
    HalveA,
    HalveB,
    Mod2A,
    Mod2B,
    BitAndA,
    BitAndB,
    BitOrA,
    BitOrB,
    BitXorA,
    BitXorB,
    EqA,
    EqB,
    NeqA,
    NeqB,
    NonzeroA,
    NonzeroB,
    IsZeroA,
    IsZeroB,
    WaitA,
    WaitB,
    MoveL,
    MoveR,
    MoveU,
    MoveD,
    CondMoveL,
    CondMoveR,
    CondMoveU,
    CondMoveD,
    CondHalt,
    ReflectAll,
    ReflectX,
    ReflectY,
    ReflectFwd,
    ReflectBwd,
    SetFlag,
    ClearFlag,
    FlagZeroA,
    FlagNonzeroA,
    FlagZeroB,
    FlagNonzeroB,
    FlagEq,
    FlagNeq,
    FlagNot,
    FlagToA,
    FlagToB,
    CursorL,
    CursorR,
    CursorU,
    CursorD,
    CursorLTimesA,
    CursorRTimesA,
    CursorUTimesA,
    CursorDTimesA,
    CursorLTimesB,
    CursorRTimesB,
    CursorUTimesB,
    CursorDTimesB,
    CursorHome,
    RadiusA,
    RadiusB,
    RadiusReset,
    RadiusToA,
    RadiusToB,
    IncRadius,
    DecRadius,
    CursorA,
    CursorB,
    CursorToA,
    CursorToB,
    Copy,
    Paste,
    Pointer0,
    PointerA,
    PointerB,
    PointerToA,
    PointerToB,
    PointerL,
    PointerR,
    PointerLTimesA,
    PointerLTimesB,
    PointerRTimesA,
    PointerRTimesB,
    Pointee0,
    PointeeA,
    PointeeB,
    PointeeToA,
    PointeeToB,
    IncPointee,
    DecPointee,
    IncPointeeA,
    IncPointeeB,
    DecPointeeA,
    DecPointeeB,
}

impl Instruction {
    /// The byte that encodes this opcode.
    pub open spec fn code(self) -> u8 {
        match self {
            Instruction::Halt => 0,
            Instruction::Nop => 1,
            Instruction::FlagFork => 2,
            Instruction::CursorFork => 3,
            Instruction::Wall => 4,
            Instruction::ZeroA => 5,
            Instruction::ZeroB => 6,
            Instruction::CopyA => 7,
            Instruction::CopyB => 8,
            Instruction::SwapAB => 9,
            Instruction::SumA => 10,
            Instruction::SumB => 11,
            Instruction::NegateA => 12,
            Instruction::NegateB => 13,
            Instruction::IncA => 14,
            Instruction::IncB => 15,
            Instruction::DecA => 16,
            Instruction::DecB => 17,
            Instruction::MulA => 18,
            Instruction::MulB => 19,
            Instruction::DoubleA => 20,
            Instruction::DoubleB => 21,
            Instruction::HalveA => 22,
            Instruction::HalveB => 23,
            Instruction::Mod2A => 24,
            Instruction::Mod2B => 25,
            Instruction::BitAndA => 26,
            Instruction::BitAndB => 27,
            Instruction::BitOrA => 28,
            Instruction::BitOrB => 29,
            Instruction::BitXorA => 30,
            Instruction::BitXorB => 31,
            Instruction::EqA => 32,
            Instruction::EqB => 33,
            Instruction::NeqA => 34,
            Instruction::NeqB => 35,
            Instruction::NonzeroA => 36,
            Instruction::NonzeroB => 37,
            Instruction::IsZeroA => 38,
            Instruction::IsZeroB => 39,
            Instruction::WaitA => 40,
            Instruction::WaitB => 41,
            Instruction::MoveL => 42,
            Instruction::MoveR => 43,
            Instruction::MoveU => 44,
            Instruction::MoveD => 45,
            Instruction::CondMoveL => 46,
            Instruction::CondMoveR => 47,
            Instruction::CondMoveU => 48,
            Instruction::CondMoveD => 49,
            Instruction::CondHalt => 50,
            Instruction::ReflectAll => 51,
            Instruction::ReflectX => 52,
            Instruction::ReflectY => 53,
            Instruction::ReflectFwd => 54,
            Instruction::ReflectBwd => 55,
            Instruction::SetFlag => 56,
            Instruction::ClearFlag => 57,
            Instruction::FlagZeroA => 58,
            Instruction::FlagNonzeroA => 59,
            Instruction::FlagZeroB => 60,
            Instruction::FlagNonzeroB => 61,
            Instruction::FlagEq => 62,
            Instruction::FlagNeq => 63,
            Instruction::FlagNot => 64,
            Instruction::FlagToA => 65,
            Instruction::FlagToB => 66,
            Instruction::CursorL => 67,
            Instruction::CursorR => 68,
            Instruction::CursorU => 69,
            Instruction::CursorD => 70,
            Instruction::CursorLTimesA => 71,
            Instruction::CursorRTimesA => 72,
            Instruction::CursorUTimesA => 73,
            Instruction::CursorDTimesA => 74,
            Instruction::CursorLTimesB => 75,
            Instruction::CursorRTimesB => 76,
            Instruction::CursorUTimesB => 77,
            Instruction::CursorDTimesB => 78,
            Instruction::CursorHome => 79,
            Instruction::RadiusA => 80,
            Instruction::RadiusB => 81,
            Instruction::RadiusReset => 82,
            Instruction::RadiusToA => 83,
            Instruction::RadiusToB => 84,
            Instruction::IncRadius => 85,
            Instruction::DecRadius => 86,
            Instruction::CursorA => 87,
            Instruction::CursorB => 88,
            Instruction::CursorToA => 89,
            Instruction::CursorToB => 90,
            Instruction::Copy => 91,
            Instruction::Paste => 92,
            Instruction::Pointer0 => 93,
            Instruction::PointerA => 94,
            Instruction::PointerB => 95,
            Instruction::PointerToA => 96,
            Instruction::PointerToB => 97,
            Instruction::PointerL => 98,
            Instruction::PointerR => 99,
            Instruction::PointerLTimesA => 100,
            Instruction::PointerLTimesB => 101,
            Instruction::PointerRTimesA => 102,
            Instruction::PointerRTimesB => 103,
            Instruction::Pointee0 => 104,
            Instruction::PointeeA => 105,
            Instruction::PointeeB => 106,
            Instruction::PointeeToA => 107,
            Instruction::PointeeToB => 108,
            Instruction::IncPointee => 109,
            Instruction::DecPointee => 110,
            Instruction::IncPointeeA => 111,
            Instruction::IncPointeeB => 112,
            Instruction::DecPointeeA => 113,
            Instruction::DecPointeeB => 114,
        }
    }

    /// The opcode that a byte encodes; `Nop` past the end of the table.
    pub open spec fn decode(b: u8) -> Instruction {
        match b {
            0 => Instruction::Halt,
            1 => Instruction::Nop,
            2 => Instruction::FlagFork,
            3 => Instruction::CursorFork,
            4 => Instruction::Wall,
            5 => Instruction::ZeroA,
            6 => Instruction::ZeroB,
            7 => Instruction::CopyA,
            8 => Instruction::CopyB,
            9 => Instruction::SwapAB,
            10 => Instruction::SumA,
            11 => Instruction::SumB,
            12 => Instruction::NegateA,
            13 => Instruction::NegateB,
            14 => Instruction::IncA,
            15 => Instruction::IncB,
            16 => Instruction::DecA,
            17 => Instruction::DecB,
            18 => Instruction::MulA,
            19 => Instruction::MulB,
            20 => Instruction::DoubleA,
            21 => Instruction::DoubleB,
            22 => Instruction::HalveA,
            23 => Instruction::HalveB,
            24 => Instruction::Mod2A,
            25 => Instruction::Mod2B,
            26 => Instruction::BitAndA,
            27 => Instruction::BitAndB,
            28 => Instruction::BitOrA,
            29 => Instruction::BitOrB,
            30 => Instruction::BitXorA,
            31 => Instruction::BitXorB,
            32 => Instruction::EqA,
            33 => Instruction::EqB,
            34 => Instruction::NeqA,
            35 => Instruction::NeqB,
            36 => Instruction::NonzeroA,
            37 => Instruction::NonzeroB,
            38 => Instruction::IsZeroA,
            39 => Instruction::IsZeroB,
            40 => Instruction::WaitA,
            41 => Instruction::WaitB,
            42 => Instruction::MoveL,
            43 => Instruction::MoveR,
            44 => Instruction::MoveU,
            45 => Instruction::MoveD,
            46 => Instruction::CondMoveL,
            47 => Instruction::CondMoveR,
            48 => Instruction::CondMoveU,
            49 => Instruction::CondMoveD,
            50 => Instruction::CondHalt,
            51 => Instruction::ReflectAll,
            52 => Instruction::ReflectX,
            53 => Instruction::ReflectY,
            54 => Instruction::ReflectFwd,
            55 => Instruction::ReflectBwd,
            56 => Instruction::SetFlag,
            57 => Instruction::ClearFlag,
            58 => Instruction::FlagZeroA,
            59 => Instruction::FlagNonzeroA,
            60 => Instruction::FlagZeroB,
            61 => Instruction::FlagNonzeroB,
            62 => Instruction::FlagEq,
            63 => Instruction::FlagNeq,
            64 => Instruction::FlagNot,
            65 => Instruction::FlagToA,
            66 => Instruction::FlagToB,
            67 => Instruction::CursorL,
            68 => Instruction::CursorR,
            69 => Instruction::CursorU,
            70 => Instruction::CursorD,
            71 => Instruction::CursorLTimesA,
            72 => Instruction::CursorRTimesA,
            73 => Instruction::CursorUTimesA,
            74 => Instruction::CursorDTimesA,
            75 => Instruction::CursorLTimesB,
            76 => Instruction::CursorRTimesB,
            77 => Instruction::CursorUTimesB,
            78 => Instruction::CursorDTimesB,
            79 => Instruction::CursorHome,
            80 => Instruction::RadiusA,
            81 => Instruction::RadiusB,
            82 => Instruction::RadiusReset,
            83 => Instruction::RadiusToA,
            84 => Instruction::RadiusToB,
            85 => Instruction::IncRadius,
            86 => Instruction::DecRadius,
            87 => Instruction::CursorA,
            88 => Instruction::CursorB,
            89 => Instruction::CursorToA,
            90 => Instruction::CursorToB,
            91 => Instruction::Copy,
            92 => Instruction::Paste,
            93 => Instruction::Pointer0,
            94 => Instruction::PointerA,
            95 => Instruction::PointerB,
            96 => Instruction::PointerToA,
            97 => Instruction::PointerToB,
            98 => Instruction::PointerL,
            99 => Instruction::PointerR,
            100 => Instruction::PointerLTimesA,
            101 => Instruction::PointerLTimesB,
            102 => Instruction::PointerRTimesA,
            103 => Instruction::PointerRTimesB,
            104 => Instruction::Pointee0,
            105 => Instruction::PointeeA,
            106 => Instruction::PointeeB,
            107 => Instruction::PointeeToA,
            108 => Instruction::PointeeToB,
            109 => Instruction::IncPointee,
            110 => Instruction::DecPointee,
            111 => Instruction::IncPointeeA,
            112 => Instruction::IncPointeeB,
            113 => Instruction::DecPointeeA,
            114 => Instruction::DecPointeeB,
            _ => Instruction::Nop,
        }
    }

    /// The two-character symbol of this opcode.
    pub open spec fn symbol(self) -> (char, char) {
        match self {
            Instruction::Halt => ('@', '@'),
            Instruction::Nop => ('.', '.'),
            Instruction::FlagFork => ('-', '='),
            Instruction::CursorFork => ('m', '='),
            Instruction::Wall => ('#', '#'),
            Instruction::ZeroA => ('0', 'a'),
            Instruction::ZeroB => ('0', 'b'),
            Instruction::CopyA => ('b', 'a'),
            Instruction::CopyB => ('a', 'b'),
            Instruction::SwapAB => (':', ':'),
            Instruction::SumA => ('a', '+'),
            Instruction::SumB => ('b', '+'),
            Instruction::NegateA => ('a', '-'),
            Instruction::NegateB => ('b', '-'),
            Instruction::IncA => ('+', 'a'),
            Instruction::IncB => ('+', 'b'),
            Instruction::DecA => ('-', 'a'),
            Instruction::DecB => ('-', 'b'),
            Instruction::MulA => ('a', '*'),
            Instruction::MulB => ('b', '*'),
            Instruction::DoubleA => ('a', 'a'),
            Instruction::DoubleB => ('b', 'b'),
            Instruction::HalveA => ('a', '/'),
            Instruction::HalveB => ('b', '/'),
            Instruction::Mod2A => ('a', '%'),
            Instruction::Mod2B => ('b', '%'),
            Instruction::BitAndA => ('a', '&'),
            Instruction::BitAndB => ('b', '&'),
            Instruction::BitOrA => ('a', '|'),
            Instruction::BitOrB => ('b', '|'),
            Instruction::BitXorA => ('a', '#'),
            Instruction::BitXorB => ('b', '#'),
            Instruction::EqA => ('a', '='),
            Instruction::EqB => ('b', '='),
            Instruction::NeqA => ('a', '!'),
            Instruction::NeqB => ('b', '!'),
            Instruction::NonzeroA => ('a', '1'),
            Instruction::NonzeroB => ('b', '1'),
            Instruction::IsZeroA => ('a', '0'),
            Instruction::IsZeroB => ('b', '0'),
            Instruction::WaitA => ('.', 'a'),
            Instruction::WaitB => ('.', 'b'),
            Instruction::MoveL => ('!', '<'),
            Instruction::MoveR => ('!', '>'),
            Instruction::MoveU => ('!', '^'),
            Instruction::MoveD => ('!', 'v'),
            Instruction::CondMoveL => ('?', '<'),
            Instruction::CondMoveR => ('?', '>'),
            Instruction::CondMoveU => ('?', '^'),
            Instruction::CondMoveD => ('?', 'v'),
            Instruction::CondHalt => ('?', '@'),
            Instruction::ReflectAll => ('!', '#'),
            Instruction::ReflectX => ('!', '|'),
            Instruction::ReflectY => ('!', '-'),
            Instruction::ReflectFwd => ('!', '/'),
            Instruction::ReflectBwd => ('!', '\\'),
            Instruction::SetFlag => ('(', '('),
            Instruction::ClearFlag => (')', ')'),
            Instruction::FlagZeroA => ('(', 'a'),
            Instruction::FlagNonzeroA => (')', 'a'),
            Instruction::FlagZeroB => ('(', 'b'),
            Instruction::FlagNonzeroB => (')', 'b'),
            Instruction::FlagEq => ('(', '='),
            Instruction::FlagNeq => ('(', '!'),
            Instruction::FlagNot => (')', '('),
            Instruction::FlagToA => ('a', '('),
            Instruction::FlagToB => ('b', '('),
            Instruction::CursorL => ('#', '<'),
            Instruction::CursorR => ('#', '>'),
            Instruction::CursorU => ('#', '^'),
            Instruction::CursorD => ('#', 'v'),
            Instruction::CursorLTimesA => ('a', '<'),
            Instruction::CursorRTimesA => ('a', '>'),
            Instruction::CursorUTimesA => ('a', '^'),
            Instruction::CursorDTimesA => ('a', 'v'),
            Instruction::CursorLTimesB => ('b', '<'),
            Instruction::CursorRTimesB => ('b', '>'),
            Instruction::CursorUTimesB => ('b', '^'),
            Instruction::CursorDTimesB => ('b', 'v'),
            Instruction::CursorHome => ('#', '0'),
            Instruction::RadiusA => ('r', 'a'),
            Instruction::RadiusB => ('r', 'b'),
            Instruction::RadiusReset => ('r', '0'),
            Instruction::RadiusToA => ('a', 'r'),
            Instruction::RadiusToB => ('b', 'r'),
            Instruction::IncRadius => ('r', '+'),
            Instruction::DecRadius => ('r', '-'),
            Instruction::CursorA => ('m', 'a'),
            Instruction::CursorB => ('m', 'b'),
            Instruction::CursorToA => ('a', 'm'),
            Instruction::CursorToB => ('b', 'm'),
            Instruction::Copy => ('c', 'm'),
            Instruction::Paste => ('m', 'c'),
            Instruction::Pointer0 => ('p', '0'),
            Instruction::PointerA => ('p', 'a'),
            Instruction::PointerB => ('p', 'b'),
            Instruction::PointerToA => ('a', 'p'),
            Instruction::PointerToB => ('b', 'p'),
            Instruction::PointerL => ('p', '<'),
            Instruction::PointerR => ('p', '>'),
            Instruction::PointerLTimesA => ('[', 'a'),
            Instruction::PointerLTimesB => ('[', 'b'),
            Instruction::PointerRTimesA => (']', 'a'),
            Instruction::PointerRTimesB => (']', 'b'),
            Instruction::Pointee0 => ('$', '0'),
            Instruction::PointeeA => ('$', 'a'),
            Instruction::PointeeB => ('$', 'b'),
            Instruction::PointeeToA => ('a', '$'),
            Instruction::PointeeToB => ('b', '$'),
            Instruction::IncPointee => ('$', '+'),
            Instruction::DecPointee => ('$', '-'),
            Instruction::IncPointeeA => ('+', 'A'),
            Instruction::IncPointeeB => ('+', 'B'),
            Instruction::DecPointeeA => ('-', 'A'),
            Instruction::DecPointeeB => ('-', 'B'),
        }
    }

    /// The category of this opcode.
    pub open spec fn spec_category(self) -> Category {
        match self {
            Instruction::Halt | Instruction::Nop | Instruction::FlagFork | Instruction::CursorFork => Category::Special,
            Instruction::Wall => Category::Wall,
            Instruction::ZeroA | Instruction::ZeroB | Instruction::CopyA | Instruction::CopyB | Instruction::SwapAB | Instruction::SumA | Instruction::SumB | Instruction::NegateA | Instruction::NegateB | Instruction::IncA | Instruction::IncB | Instruction::DecA | Instruction::DecB | Instruction::MulA | Instruction::MulB | Instruction::DoubleA | Instruction::DoubleB | Instruction::HalveA | Instruction::HalveB | Instruction::Mod2A | Instruction::Mod2B | Instruction::BitAndA | Instruction::BitAndB | Instruction::BitOrA | Instruction::BitOrB | Instruction::BitXorA | Instruction::BitXorB | Instruction::EqA | Instruction::EqB | Instruction::NeqA | Instruction::NeqB | Instruction::NonzeroA | Instruction::NonzeroB | Instruction::IsZeroA | Instruction::IsZeroB => Category::Calculation,
            Instruction::WaitA | Instruction::WaitB | Instruction::MoveL | Instruction::MoveR | Instruction::MoveU | Instruction::MoveD | Instruction::CondMoveL | Instruction::CondMoveR | Instruction::CondMoveU | Instruction::CondMoveD | Instruction::CondHalt | Instruction::ReflectAll | Instruction::ReflectX | Instruction::ReflectY | Instruction::ReflectFwd | Instruction::ReflectBwd | Instruction::SetFlag | Instruction::ClearFlag | Instruction::FlagZeroA | Instruction::FlagNonzeroA | Instruction::FlagZeroB | Instruction::FlagNonzeroB | Instruction::FlagEq | Instruction::FlagNeq | Instruction::FlagNot | Instruction::FlagToA | Instruction::FlagToB => Category::Control,
            Instruction::CursorL | Instruction::CursorR | Instruction::CursorU | Instruction::CursorD | Instruction::CursorLTimesA | Instruction::CursorRTimesA | Instruction::CursorUTimesA | Instruction::CursorDTimesA | Instruction::CursorLTimesB | Instruction::CursorRTimesB | Instruction::CursorUTimesB | Instruction::CursorDTimesB | Instruction::CursorHome => Category::Cursor,
            Instruction::RadiusA | Instruction::RadiusB | Instruction::RadiusReset | Instruction::RadiusToA | Instruction::RadiusToB | Instruction::IncRadius | Instruction::DecRadius | Instruction::CursorA | Instruction::CursorB | Instruction::CursorToA | Instruction::CursorToB | Instruction::Copy | Instruction::Paste => Category::Selection,
            Instruction::Pointer0 | Instruction::PointerA | Instruction::PointerB | Instruction::PointerToA | Instruction::PointerToB | Instruction::PointerL | Instruction::PointerR | Instruction::PointerLTimesA | Instruction::PointerLTimesB | Instruction::PointerRTimesA | Instruction::PointerRTimesB | Instruction::Pointee0 | Instruction::PointeeA | Instruction::PointeeB | Instruction::PointeeToA | Instruction::PointeeToB | Instruction::IncPointee | Instruction::DecPointee | Instruction::IncPointeeA | Instruction::IncPointeeB | Instruction::DecPointeeA | Instruction::DecPointeeB => Category::Memory,
        }
    }

    pub fn to_byte(self) -> (r: u8)
        ensures
            r == self.code(),
            r < INSTRUCTION_COUNT,
    {
        match self {
            Instruction::Halt => 0,
            Instruction::Nop => 1,
            Instruction::FlagFork => 2,
            Instruction::CursorFork => 3,
            Instruction::Wall => 4,
            Instruction::ZeroA => 5,
            Instruction::ZeroB => 6,
            Instruction::CopyA => 7,
            Instruction::CopyB => 8,
            Instruction::SwapAB => 9,
            Instruction::SumA => 10,
            Instruction::SumB => 11,
            Instruction::NegateA => 12,
            Instruction::NegateB => 13,
            Instruction::IncA => 14,
            Instruction::IncB => 15,
            Instruction::DecA => 16,
            Instruction::DecB => 17,
            Instruction::MulA => 18,
            Instruction::MulB => 19,
            Instruction::DoubleA => 20,
            Instruction::DoubleB => 21,
            Instruction::HalveA => 22,
            Instruction::HalveB => 23,
            Instruction::Mod2A => 24,
            Instruction::Mod2B => 25,
            Instruction::BitAndA => 26,
            Instruction::BitAndB => 27,
            Instruction::BitOrA => 28,
            Instruction::BitOrB => 29,
            Instruction::BitXorA => 30,
            Instruction::BitXorB => 31,
            Instruction::EqA => 32,
            Instruction::EqB => 33,
            Instruction::NeqA => 34,
            Instruction::NeqB => 35,
            Instruction::NonzeroA => 36,
            Instruction::NonzeroB => 37,
            Instruction::IsZeroA => 38,
            Instruction::IsZeroB => 39,
            Instruction::WaitA => 40,
            Instruction::WaitB => 41,
            Instruction::MoveL => 42,
            Instruction::MoveR => 43,
            Instruction::MoveU => 44,
            Instruction::MoveD => 45,
            Instruction::CondMoveL => 46,
            Instruction::CondMoveR => 47,
            Instruction::CondMoveU => 48,
            Instruction::CondMoveD => 49,
            Instruction::CondHalt => 50,
            Instruction::ReflectAll => 51,
            Instruction::ReflectX => 52,
            Instruction::ReflectY => 53,
            Instruction::ReflectFwd => 54,
            Instruction::ReflectBwd => 55,
            Instruction::SetFlag => 56,
            Instruction::ClearFlag => 57,
            Instruction::FlagZeroA => 58,
            Instruction::FlagNonzeroA => 59,
            Instruction::FlagZeroB => 60,
            Instruction::FlagNonzeroB => 61,
            Instruction::FlagEq => 62,
            Instruction::FlagNeq => 63,
            Instruction::FlagNot => 64,
            Instruction::FlagToA => 65,
            Instruction::FlagToB => 66,
            Instruction::CursorL => 67,
            Instruction::CursorR => 68,
            Instruction::CursorU => 69,
            Instruction::CursorD => 70,
            Instruction::CursorLTimesA => 71,
            Instruction::CursorRTimesA => 72,
            Instruction::CursorUTimesA => 73,
            Instruction::CursorDTimesA => 74,
            Instruction::CursorLTimesB => 75,
            Instruction::CursorRTimesB => 76,
            Instruction::CursorUTimesB => 77,
            Instruction::CursorDTimesB => 78,
            Instruction::CursorHome => 79,
            Instruction::RadiusA => 80,
            Instruction::RadiusB => 81,
            Instruction::RadiusReset => 82,
            Instruction::RadiusToA => 83,
            Instruction::RadiusToB => 84,
            Instruction::IncRadius => 85,
            Instruction::DecRadius => 86,
            Instruction::CursorA => 87,
            Instruction::CursorB => 88,
            Instruction::CursorToA => 89,
            Instruction::CursorToB => 90,
            Instruction::Copy => 91,
            Instruction::Paste => 92,
            Instruction::Pointer0 => 93,
            Instruction::PointerA => 94,
            Instruction::PointerB => 95,
            Instruction::PointerToA => 96,
            Instruction::PointerToB => 97,
            Instruction::PointerL => 98,
            Instruction::PointerR => 99,
            Instruction::PointerLTimesA => 100,
            Instruction::PointerLTimesB => 101,
            Instruction::PointerRTimesA => 102,
            Instruction::PointerRTimesB => 103,
            Instruction::Pointee0 => 104,
            Instruction::PointeeA => 105,
            Instruction::PointeeB => 106,
            Instruction::PointeeToA => 107,
            Instruction::PointeeToB => 108,
            Instruction::IncPointee => 109,
            Instruction::DecPointee => 110,
            Instruction::IncPointeeA => 111,
            Instruction::IncPointeeB => 112,
            Instruction::DecPointeeA => 113,
            Instruction::DecPointeeB => 114,
        }
    }

    /// The opcode that `b` encodes; bytes past the end of the table are `Nop`.
    pub fn from_byte(b: u8) -> (r: Instruction)
        ensures
            r == Instruction::decode(b),
            b < INSTRUCTION_COUNT ==> r.code() == b,
            b >= INSTRUCTION_COUNT ==> r == Instruction::Nop,
    {
        match b {
            0 => Instruction::Halt,
            1 => Instruction::Nop,
            2 => Instruction::FlagFork,
            3 => Instruction::CursorFork,
            4 => Instruction::Wall,
            5 => Instruction::ZeroA,
            6 => Instruction::ZeroB,
            7 => Instruction::CopyA,
            8 => Instruction::CopyB,
            9 => Instruction::SwapAB,
            10 => Instruction::SumA,
            11 => Instruction::SumB,
            12 => Instruction::NegateA,
            13 => Instruction::NegateB,
            14 => Instruction::IncA,
            15 => Instruction::IncB,
            16 => Instruction::DecA,
            17 => Instruction::DecB,
            18 => Instruction::MulA,
            19 => Instruction::MulB,
            20 => Instruction::DoubleA,
            21 => Instruction::DoubleB,
            22 => Instruction::HalveA,
            23 => Instruction::HalveB,
            24 => Instruction::Mod2A,
            25 => Instruction::Mod2B,
            26 => Instruction::BitAndA,
            27 => Instruction::BitAndB,
            28 => Instruction::BitOrA,
            29 => Instruction::BitOrB,
            30 => Instruction::BitXorA,
            31 => Instruction::BitXorB,
            32 => Instruction::EqA,
            33 => Instruction::EqB,
            34 => Instruction::NeqA,
            35 => Instruction::NeqB,
            36 => Instruction::NonzeroA,
            37 => Instruction::NonzeroB,
            38 => Instruction::IsZeroA,
            39 => Instruction::IsZeroB,
            40 => Instruction::WaitA,
            41 => Instruction::WaitB,
            42 => Instruction::MoveL,
            43 => Instruction::MoveR,
            44 => Instruction::MoveU,
            45 => Instruction::MoveD,
            46 => Instruction::CondMoveL,
            47 => Instruction::CondMoveR,
            48 => Instruction::CondMoveU,
            49 => Instruction::CondMoveD,
            50 => Instruction::CondHalt,
            51 => Instruction::ReflectAll,
            52 => Instruction::ReflectX,
            53 => Instruction::ReflectY,
            54 => Instruction::ReflectFwd,
            55 => Instruction::ReflectBwd,
            56 => Instruction::SetFlag,
            57 => Instruction::ClearFlag,
            58 => Instruction::FlagZeroA,
            59 => Instruction::FlagNonzeroA,
            60 => Instruction::FlagZeroB,
            61 => Instruction::FlagNonzeroB,
            62 => Instruction::FlagEq,
            63 => Instruction::FlagNeq,
            64 => Instruction::FlagNot,
            65 => Instruction::FlagToA,
            66 => Instruction::FlagToB,
            67 => Instruction::CursorL,
            68 => Instruction::CursorR,
            69 => Instruction::CursorU,
            70 => Instruction::CursorD,
            71 => Instruction::CursorLTimesA,
            72 => Instruction::CursorRTimesA,
            73 => Instruction::CursorUTimesA,
            74 => Instruction::CursorDTimesA,
            75 => Instruction::CursorLTimesB,
            76 => Instruction::CursorRTimesB,
            77 => Instruction::CursorUTimesB,
            78 => Instruction::CursorDTimesB,
            79 => Instruction::CursorHome,
            80 => Instruction::RadiusA,
            81 => Instruction::RadiusB,
            82 => Instruction::RadiusReset,
            83 => Instruction::RadiusToA,
            84 => Instruction::RadiusToB,
            85 => Instruction::IncRadius,
            86 => Instruction::DecRadius,
            87 => Instruction::CursorA,
            88 => Instruction::CursorB,
            89 => Instruction::CursorToA,
            90 => Instruction::CursorToB,
            91 => Instruction::Copy,
            92 => Instruction::Paste,
            93 => Instruction::Pointer0,
            94 => Instruction::PointerA,
            95 => Instruction::PointerB,
            96 => Instruction::PointerToA,
            97 => Instruction::PointerToB,
            98 => Instruction::PointerL,
            99 => Instruction::PointerR,
            100 => Instruction::PointerLTimesA,
            101 => Instruction::PointerLTimesB,
            102 => Instruction::PointerRTimesA,
            103 => Instruction::PointerRTimesB,
            104 => Instruction::Pointee0,
            105 => Instruction::PointeeA,
            106 => Instruction::PointeeB,
            107 => Instruction::PointeeToA,
            108 => Instruction::PointeeToB,
            109 => Instruction::IncPointee,
            110 => Instruction::DecPointee,
            111 => Instruction::IncPointeeA,
            112 => Instruction::IncPointeeB,
            113 => Instruction::DecPointeeA,
            114 => Instruction::DecPointeeB,
            _ => Instruction::Nop,
        }
    }

    /// The two characters of this opcode's symbol.
    pub fn symbol_chars(self) -> (r: (char, char))
        ensures
            r == self.symbol(),
    {
        match self {
            Instruction::Halt => ('@', '@'),
            Instruction::Nop => ('.', '.'),
            Instruction::FlagFork => ('-', '='),
            Instruction::CursorFork => ('m', '='),
            Instruction::Wall => ('#', '#'),
            Instruction::ZeroA => ('0', 'a'),
            Instruction::ZeroB => ('0', 'b'),
            Instruction::CopyA => ('b', 'a'),
            Instruction::CopyB => ('a', 'b'),
            Instruction::SwapAB => (':', ':'),
            Instruction::SumA => ('a', '+'),
            Instruction::SumB => ('b', '+'),
            Instruction::NegateA => ('a', '-'),
            Instruction::NegateB => ('b', '-'),
            Instruction::IncA => ('+', 'a'),
            Instruction::IncB => ('+', 'b'),
            Instruction::DecA => ('-', 'a'),
            Instruction::DecB => ('-', 'b'),
            Instruction::MulA => ('a', '*'),
            Instruction::MulB => ('b', '*'),
            Instruction::DoubleA => ('a', 'a'),
            Instruction::DoubleB => ('b', 'b'),
            Instruction::HalveA => ('a', '/'),
            Instruction::HalveB => ('b', '/'),
            Instruction::Mod2A => ('a', '%'),
            Instruction::Mod2B => ('b', '%'),
            Instruction::BitAndA => ('a', '&'),
            Instruction::BitAndB => ('b', '&'),
            Instruction::BitOrA => ('a', '|'),
            Instruction::BitOrB => ('b', '|'),
            Instruction::BitXorA => ('a', '#'),
            Instruction::BitXorB => ('b', '#'),
            Instruction::EqA => ('a', '='),
            Instruction::EqB => ('b', '='),
            Instruction::NeqA => ('a', '!'),
            Instruction::NeqB => ('b', '!'),
            Instruction::NonzeroA => ('a', '1'),
            Instruction::NonzeroB => ('b', '1'),
            Instruction::IsZeroA => ('a', '0'),
            Instruction::IsZeroB => ('b', '0'),
            Instruction::WaitA => ('.', 'a'),
            Instruction::WaitB => ('.', 'b'),
            Instruction::MoveL => ('!', '<'),
            Instruction::MoveR => ('!', '>'),
            Instruction::MoveU => ('!', '^'),
            Instruction::MoveD => ('!', 'v'),
            Instruction::CondMoveL => ('?', '<'),
            Instruction::CondMoveR => ('?', '>'),
            Instruction::CondMoveU => ('?', '^'),
            Instruction::CondMoveD => ('?', 'v'),
            Instruction::CondHalt => ('?', '@'),
            Instruction::ReflectAll => ('!', '#'),
            Instruction::ReflectX => ('!', '|'),
            Instruction::ReflectY => ('!', '-'),
            Instruction::ReflectFwd => ('!', '/'),
            Instruction::ReflectBwd => ('!', '\\'),
            Instruction::SetFlag => ('(', '('),
            Instruction::ClearFlag => (')', ')'),
            Instruction::FlagZeroA => ('(', 'a'),
            Instruction::FlagNonzeroA => (')', 'a'),
            Instruction::FlagZeroB => ('(', 'b'),
            Instruction::FlagNonzeroB => (')', 'b'),
            Instruction::FlagEq => ('(', '='),
            Instruction::FlagNeq => ('(', '!'),
            Instruction::FlagNot => (')', '('),
            Instruction::FlagToA => ('a', '('),
            Instruction::FlagToB => ('b', '('),
            Instruction::CursorL => ('#', '<'),
            Instruction::CursorR => ('#', '>'),
            Instruction::CursorU => ('#', '^'),
            Instruction::CursorD => ('#', 'v'),
            Instruction::CursorLTimesA => ('a', '<'),
            Instruction::CursorRTimesA => ('a', '>'),
            Instruction::CursorUTimesA => ('a', '^'),
            Instruction::CursorDTimesA => ('a', 'v'),
            Instruction::CursorLTimesB => ('b', '<'),
            Instruction::CursorRTimesB => ('b', '>'),
            Instruction::CursorUTimesB => ('b', '^'),
            Instruction::CursorDTimesB => ('b', 'v'),
            Instruction::CursorHome => ('#', '0'),
            Instruction::RadiusA => ('r', 'a'),
            Instruction::RadiusB => ('r', 'b'),
            Instruction::RadiusReset => ('r', '0'),
            Instruction::RadiusToA => ('a', 'r'),
            Instruction::RadiusToB => ('b', 'r'),
            Instruction::IncRadius => ('r', '+'),
            Instruction::DecRadius => ('r', '-'),
            Instruction::CursorA => ('m', 'a'),
            Instruction::CursorB => ('m', 'b'),
            Instruction::CursorToA => ('a', 'm'),
            Instruction::CursorToB => ('b', 'm'),
            Instruction::Copy => ('c', 'm'),
            Instruction::Paste => ('m', 'c'),
            Instruction::Pointer0 => ('p', '0'),
            Instruction::PointerA => ('p', 'a'),
            Instruction::PointerB => ('p', 'b'),
            Instruction::PointerToA => ('a', 'p'),
            Instruction::PointerToB => ('b', 'p'),
            Instruction::PointerL => ('p', '<'),
            Instruction::PointerR => ('p', '>'),
            Instruction::PointerLTimesA => ('[', 'a'),
            Instruction::PointerLTimesB => ('[', 'b'),
            Instruction::PointerRTimesA => (']', 'a'),
            Instruction::PointerRTimesB => (']', 'b'),
            Instruction::Pointee0 => ('$', '0'),
            Instruction::PointeeA => ('$', 'a'),
            Instruction::PointeeB => ('$', 'b'),
            Instruction::PointeeToA => ('a', '$'),
            Instruction::PointeeToB => ('b', '$'),
            Instruction::IncPointee => ('$', '+'),
            Instruction::DecPointee => ('$', '-'),
            Instruction::IncPointeeA => ('+', 'A'),
            Instruction::IncPointeeB => ('+', 'B'),
            Instruction::DecPointeeA => ('-', 'A'),
            Instruction::DecPointeeB => ('-', 'B'),
        }
    }

    pub fn category(self) -> (r: Category)
        ensures
            r == self.spec_category(),
    {
        match self {
            Instruction::Halt | Instruction::Nop | Instruction::FlagFork | Instruction::CursorFork => Category::Special,
            Instruction::Wall => Category::Wall,
            Instruction::ZeroA | Instruction::ZeroB | Instruction::CopyA | Instruction::CopyB | Instruction::SwapAB | Instruction::SumA | Instruction::SumB | Instruction::NegateA | Instruction::NegateB | Instruction::IncA | Instruction::IncB | Instruction::DecA | Instruction::DecB | Instruction::MulA | Instruction::MulB | Instruction::DoubleA | Instruction::DoubleB | Instruction::HalveA | Instruction::HalveB | Instruction::Mod2A | Instruction::Mod2B | Instruction::BitAndA | Instruction::BitAndB | Instruction::BitOrA | Instruction::BitOrB | Instruction::BitXorA | Instruction::BitXorB | Instruction::EqA | Instruction::EqB | Instruction::NeqA | Instruction::NeqB | Instruction::NonzeroA | Instruction::NonzeroB | Instruction::IsZeroA | Instruction::IsZeroB => Category::Calculation,
            Instruction::WaitA | Instruction::WaitB | Instruction::MoveL | Instruction::MoveR | Instruction::MoveU | Instruction::MoveD | Instruction::CondMoveL | Instruction::CondMoveR | Instruction::CondMoveU | Instruction::CondMoveD | Instruction::CondHalt | Instruction::ReflectAll | Instruction::ReflectX | Instruction::ReflectY | Instruction::ReflectFwd | Instruction::ReflectBwd | Instruction::SetFlag | Instruction::ClearFlag | Instruction::FlagZeroA | Instruction::FlagNonzeroA | Instruction::FlagZeroB | Instruction::FlagNonzeroB | Instruction::FlagEq | Instruction::FlagNeq | Instruction::FlagNot | Instruction::FlagToA | Instruction::FlagToB => Category::Control,
            Instruction::CursorL | Instruction::CursorR | Instruction::CursorU | Instruction::CursorD | Instruction::CursorLTimesA | Instruction::CursorRTimesA | Instruction::CursorUTimesA | Instruction::CursorDTimesA | Instruction::CursorLTimesB | Instruction::CursorRTimesB | Instruction::CursorUTimesB | Instruction::CursorDTimesB | Instruction::CursorHome => Category::Cursor,
            Instruction::RadiusA | Instruction::RadiusB | Instruction::RadiusReset | Instruction::RadiusToA | Instruction::RadiusToB | Instruction::IncRadius | Instruction::DecRadius | Instruction::CursorA | Instruction::CursorB | Instruction::CursorToA | Instruction::CursorToB | Instruction::Copy | Instruction::Paste => Category::Selection,
            Instruction::Pointer0 | Instruction::PointerA | Instruction::PointerB | Instruction::PointerToA | Instruction::PointerToB | Instruction::PointerL | Instruction::PointerR | Instruction::PointerLTimesA | Instruction::PointerLTimesB | Instruction::PointerRTimesA | Instruction::PointerRTimesB | Instruction::Pointee0 | Instruction::PointeeA | Instruction::PointeeB | Instruction::PointeeToA | Instruction::PointeeToB | Instruction::IncPointee | Instruction::DecPointee | Instruction::IncPointeeA | Instruction::IncPointeeB | Instruction::DecPointeeA | Instruction::DecPointeeB => Category::Memory,
        }
    }

    /// The opcode whose symbol is `s`, if any.
    pub fn from_symbol(s: &str) -> (r: Option<Instruction>)
        ensures
            r matches Some(i) ==> s@ == seq![i.symbol().0, i.symbol().1],
            r is None ==> forall|i: Instruction| s@ != seq![i.symbol().0, i.symbol().1],
    {
        if s.unicode_len() != 2 {
            proof {
                assert forall|i: Instruction| s@ != seq![i.symbol().0, i.symbol().1] by {
                    assert(seq![i.symbol().0, i.symbol().1].len() == 2);
                }
            }
            return None;
        }
        let first = s.get_char(0);
        let second = s.get_char(1);
        assert(s@ =~= seq![first, second]);
        let mut b: u8 = 0;
        while b < INSTRUCTION_COUNT
            invariant
                b <= INSTRUCTION_COUNT,
                s@ == seq![first, second],
                forall|i: Instruction| i.code() < b ==> i.symbol() != (first, second),
            decreases INSTRUCTION_COUNT - b,
        {
            let ins = Instruction::from_byte(b);
            let (c0, c1) = ins.symbol_chars();
            if c0 == first && c1 == second {
                return Some(ins);
            }
            proof {
                assert forall|i: Instruction| i.code() < b + 1 implies i.symbol() != (first, second) by {
                    if i.code() == b {
                        lemma_decode_code(i);
                    }
                }
            }
            b = b + 1;
        }
        proof {
            assert forall|i: Instruction| s@ != seq![i.symbol().0, i.symbol().1] by {
                lemma_decode_code(i);
                if s@ == seq![i.symbol().0, i.symbol().1] {
                    assert(s@[0] == i.symbol().0 && s@[1] == i.symbol().1);
                }
            }
        }
        None
    }
}

/// Decoding the byte of an opcode gives the opcode back, and that byte lies
/// in the table.
pub proof fn lemma_decode_code(i: Instruction)
    ensures
        Instruction::decode(i.code()) == i,
        i.code() < INSTRUCTION_COUNT,
{
}

} // verus!
