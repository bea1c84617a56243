//! One decoded instruction: opcode, operands, optional store target,
//! optional branch descriptor, optional inline text, and the address of the
//! instruction that follows.

use vstd::prelude::*;

verus! {

/// Every opcode the dispatcher knows, named by encoding class and number.
/// Extended opcodes are offset by 1000, as the decoder produces them.
#[derive(Copy, Clone, Eq, PartialEq, Debug, Structural)]
#[allow(non_camel_case_types)]
pub enum Opcode {
    OP2_1,
    OP2_2,
    OP2_3,
    OP2_4,
    OP2_5,
    OP2_6,
    OP2_7,
    OP2_8,
    OP2_9,
    OP2_10,
    OP2_11,
    OP2_12,
    OP2_13,
    OP2_14,
    OP2_15,
    OP2_16,
    OP2_17,
    OP2_18,
    OP2_19,
    OP2_20,
    OP2_21,
    OP2_22,
    OP2_23,
    OP2_24,
    OP2_25,
    OP2_26,
    OP2_27,
    OP2_28,
    OP1_128,
    OP1_129,
    OP1_130,
    OP1_131,
    OP1_132,
    OP1_133,
    OP1_134,
    OP1_135,
    OP1_136,
    OP1_137,
    OP1_138,
    OP1_139,
    OP1_140,
    OP1_141,
    OP1_142,
    OP1_143,
    OP0_176,
    OP0_177,
    OP0_178,
    OP0_179,
    OP0_180,
    OP0_181,
    OP0_182,
    OP0_183,
    OP0_184,
    OP0_185,
    OP0_186,
    OP0_187,
    OP0_188,
    OP0_189,
    OP0_190,
    OP0_191,
    VAR_224,
    VAR_225,
    VAR_226,
    VAR_227,
    VAR_228,
    VAR_229,
    VAR_230,
    VAR_231,
    VAR_232,
    VAR_233,
    VAR_234,
    VAR_235,
    VAR_236,
    VAR_237,
    VAR_238,
    VAR_239,
    VAR_240,
    VAR_241,
    VAR_242,
    VAR_243,
    VAR_244,
    VAR_245,
    VAR_246,
    VAR_247,
    VAR_248,
    VAR_249,
    VAR_250,
    VAR_251,
    VAR_252,
    VAR_253,
    VAR_254,
    VAR_255,
    EXT_1000,
    EXT_1001,
    EXT_1002,
    EXT_1003,
    EXT_1004,
    EXT_1005,
    EXT_1006,
    EXT_1007,
    EXT_1008,
    EXT_1009,
    EXT_1010,
    EXT_1011,
}

impl Opcode {
    /// The opcode for a decoder-produced number; `None` for a number no
    /// opcode of the supported set carries.
    pub fn from_u16(num: u16) -> (r: Option<Opcode>)
        ensures
            r == Opcode::spec_from_u16(num),
    {
        match num {
            1u16 => Some(Opcode::OP2_1),
            2u16 => Some(Opcode::OP2_2),
            3u16 => Some(Opcode::OP2_3),
            4u16 => Some(Opcode::OP2_4),
            5u16 => Some(Opcode::OP2_5),
            6u16 => Some(Opcode::OP2_6),
            7u16 => Some(Opcode::OP2_7),
            8u16 => Some(Opcode::OP2_8),
            9u16 => Some(Opcode::OP2_9),
            10u16 => Some(Opcode::OP2_10),
            11u16 => Some(Opcode::OP2_11),
            12u16 => Some(Opcode::OP2_12),
            13u16 => Some(Opcode::OP2_13),
            14u16 => Some(Opcode::OP2_14),
            15u16 => Some(Opcode::OP2_15),
            16u16 => Some(Opcode::OP2_16),
            17u16 => Some(Opcode::OP2_17),
            18u16 => Some(Opcode::OP2_18),
            19u16 => Some(Opcode::OP2_19),
            20u16 => Some(Opcode::OP2_20),
            21u16 => Some(Opcode::OP2_21),
            22u16 => Some(Opcode::OP2_22),
            23u16 => Some(Opcode::OP2_23),
            24u16 => Some(Opcode::OP2_24),
            25u16 => Some(Opcode::OP2_25),
            26u16 => Some(Opcode::OP2_26),
            27u16 => Some(Opcode::OP2_27),
            28u16 => Some(Opcode::OP2_28),
            128u16 => Some(Opcode::OP1_128),
            129u16 => Some(Opcode::OP1_129),
            130u16 => Some(Opcode::OP1_130),
            131u16 => Some(Opcode::OP1_131),
            132u16 => Some(Opcode::OP1_132),
            133u16 => Some(Opcode::OP1_133),
            134u16 => Some(Opcode::OP1_134),
            135u16 => Some(Opcode::OP1_135),
            136u16 => Some(Opcode::OP1_136),
            137u16 => Some(Opcode::OP1_137),
            138u16 => Some(Opcode::OP1_138),
            139u16 => Some(Opcode::OP1_139),
            140u16 => Some(Opcode::OP1_140),
            141u16 => Some(Opcode::OP1_141),
            142u16 => Some(Opcode::OP1_142),
            143u16 => Some(Opcode::OP1_143),
            176u16 => Some(Opcode::OP0_176),
            177u16 => Some(Opcode::OP0_177),
            178u16 => Some(Opcode::OP0_178),
            179u16 => Some(Opcode::OP0_179),
            180u16 => Some(Opcode::OP0_180),
            181u16 => Some(Opcode::OP0_181),
            182u16 => Some(Opcode::OP0_182),
            183u16 => Some(Opcode::OP0_183),
            184u16 => Some(Opcode::OP0_184),
            185u16 => Some(Opcode::OP0_185),
            186u16 => Some(Opcode::OP0_186),
            187u16 => Some(Opcode::OP0_187),
            188u16 => Some(Opcode::OP0_188),
            189u16 => Some(Opcode::OP0_189),
            190u16 => Some(Opcode::OP0_190),
            191u16 => Some(Opcode::OP0_191),
            224u16 => Some(Opcode::VAR_224),
            225u16 => Some(Opcode::VAR_225),
            226u16 => Some(Opcode::VAR_226),
            227u16 => Some(Opcode::VAR_227),
            228u16 => Some(Opcode::VAR_228),
            229u16 => Some(Opcode::VAR_229),
            230u16 => Some(Opcode::VAR_230),
            231u16 => Some(Opcode::VAR_231),
            232u16 => Some(Opcode::VAR_232),
            233u16 => Some(Opcode::VAR_233),
            234u16 => Some(Opcode::VAR_234),
            235u16 => Some(Opcode::VAR_235),
            236u16 => Some(Opcode::VAR_236),
            237u16 => Some(Opcode::VAR_237),
            238u16 => Some(Opcode::VAR_238),
            239u16 => Some(Opcode::VAR_239),
            240u16 => Some(Opcode::VAR_240),
            241u16 => Some(Opcode::VAR_241),
            242u16 => Some(Opcode::VAR_242),
            243u16 => Some(Opcode::VAR_243),
            244u16 => Some(Opcode::VAR_244),
            245u16 => Some(Opcode::VAR_245),
            246u16 => Some(Opcode::VAR_246),
            247u16 => Some(Opcode::VAR_247),
            248u16 => Some(Opcode::VAR_248),
            249u16 => Some(Opcode::VAR_249),
            250u16 => Some(Opcode::VAR_250),
            251u16 => Some(Opcode::VAR_251),
            252u16 => Some(Opcode::VAR_252),
            253u16 => Some(Opcode::VAR_253),
            254u16 => Some(Opcode::VAR_254),
            255u16 => Some(Opcode::VAR_255),
            1000u16 => Some(Opcode::EXT_1000),
            1001u16 => Some(Opcode::EXT_1001),
            1002u16 => Some(Opcode::EXT_1002),
            1003u16 => Some(Opcode::EXT_1003),
            1004u16 => Some(Opcode::EXT_1004),
            1005u16 => Some(Opcode::EXT_1005),
            1006u16 => Some(Opcode::EXT_1006),
            1007u16 => Some(Opcode::EXT_1007),
            1008u16 => Some(Opcode::EXT_1008),
            1009u16 => Some(Opcode::EXT_1009),
            1010u16 => Some(Opcode::EXT_1010),
            1011u16 => Some(Opcode::EXT_1011),
            _ => None,
        }
    }

    /// The same correspondence, for contracts.
    pub open spec fn spec_from_u16(num: u16) -> Option<Opcode> {
        match num {
            1u16 => Some(Opcode::OP2_1),
            2u16 => Some(Opcode::OP2_2),
            3u16 => Some(Opcode::OP2_3),
            4u16 => Some(Opcode::OP2_4),
            5u16 => Some(Opcode::OP2_5),
            6u16 => Some(Opcode::OP2_6),
            7u16 => Some(Opcode::OP2_7),
            8u16 => Some(Opcode::OP2_8),
            9u16 => Some(Opcode::OP2_9),
            10u16 => Some(Opcode::OP2_10),
            11u16 => Some(Opcode::OP2_11),
            12u16 => Some(Opcode::OP2_12),
            13u16 => Some(Opcode::OP2_13),
            14u16 => Some(Opcode::OP2_14),
            15u16 => Some(Opcode::OP2_15),
            16u16 => Some(Opcode::OP2_16),
            17u16 => Some(Opcode::OP2_17),
            18u16 => Some(Opcode::OP2_18),
            19u16 => Some(Opcode::OP2_19),
            20u16 => Some(Opcode::OP2_20),
            21u16 => Some(Opcode::OP2_21),
            22u16 => Some(Opcode::OP2_22),
            23u16 => Some(Opcode::OP2_23),
            24u16 => Some(Opcode::OP2_24),
            25u16 => Some(Opcode::OP2_25),
            26u16 => Some(Opcode::OP2_26),
            27u16 => Some(Opcode::OP2_27),
            28u16 => Some(Opcode::OP2_28),
            128u16 => Some(Opcode::OP1_128),
            129u16 => Some(Opcode::OP1_129),
            130u16 => Some(Opcode::OP1_130),
            131u16 => Some(Opcode::OP1_131),
            132u16 => Some(Opcode::OP1_132),
            133u16 => Some(Opcode::OP1_133),
            134u16 => Some(Opcode::OP1_134),
            135u16 => Some(Opcode::OP1_135),
            136u16 => Some(Opcode::OP1_136),
            137u16 => Some(Opcode::OP1_137),
            138u16 => Some(Opcode::OP1_138),
            139u16 => Some(Opcode::OP1_139),
            140u16 => Some(Opcode::OP1_140),
            141u16 => Some(Opcode::OP1_141),
            142u16 => Some(Opcode::OP1_142),
            143u16 => Some(Opcode::OP1_143),
            176u16 => Some(Opcode::OP0_176),
            177u16 => Some(Opcode::OP0_177),
            178u16 => Some(Opcode::OP0_178),
            179u16 => Some(Opcode::OP0_179),
            180u16 => Some(Opcode::OP0_180),
            181u16 => Some(Opcode::OP0_181),
            182u16 => Some(Opcode::OP0_182),
            183u16 => Some(Opcode::OP0_183),
            184u16 => Some(Opcode::OP0_184),
            185u16 => Some(Opcode::OP0_185),
            186u16 => Some(Opcode::OP0_186),
            187u16 => Some(Opcode::OP0_187),
            188u16 => Some(Opcode::OP0_188),
            189u16 => Some(Opcode::OP0_189),
            190u16 => Some(Opcode::OP0_190),
            191u16 => Some(Opcode::OP0_191),
            224u16 => Some(Opcode::VAR_224),
            225u16 => Some(Opcode::VAR_225),
            226u16 => Some(Opcode::VAR_226),
            227u16 => Some(Opcode::VAR_227),
            228u16 => Some(Opcode::VAR_228),
            229u16 => Some(Opcode::VAR_229),
            230u16 => Some(Opcode::VAR_230),
            231u16 => Some(Opcode::VAR_231),
            232u16 => Some(Opcode::VAR_232),
            233u16 => Some(Opcode::VAR_233),
            234u16 => Some(Opcode::VAR_234),
            235u16 => Some(Opcode::VAR_235),
            236u16 => Some(Opcode::VAR_236),
            237u16 => Some(Opcode::VAR_237),
            238u16 => Some(Opcode::VAR_238),
            239u16 => Some(Opcode::VAR_239),
            240u16 => Some(Opcode::VAR_240),
            241u16 => Some(Opcode::VAR_241),
            242u16 => Some(Opcode::VAR_242),
            243u16 => Some(Opcode::VAR_243),
            244u16 => Some(Opcode::VAR_244),
            245u16 => Some(Opcode::VAR_245),
            246u16 => Some(Opcode::VAR_246),
            247u16 => Some(Opcode::VAR_247),
            248u16 => Some(Opcode::VAR_248),
            249u16 => Some(Opcode::VAR_249),
            250u16 => Some(Opcode::VAR_250),
            251u16 => Some(Opcode::VAR_251),
            252u16 => Some(Opcode::VAR_252),
            253u16 => Some(Opcode::VAR_253),
            254u16 => Some(Opcode::VAR_254),
            255u16 => Some(Opcode::VAR_255),
            1000u16 => Some(Opcode::EXT_1000),
            1001u16 => Some(Opcode::EXT_1001),
            1002u16 => Some(Opcode::EXT_1002),
            1003u16 => Some(Opcode::EXT_1003),
            1004u16 => Some(Opcode::EXT_1004),
            1005u16 => Some(Opcode::EXT_1005),
            1006u16 => Some(Opcode::EXT_1006),
            1007u16 => Some(Opcode::EXT_1007),
            1008u16 => Some(Opcode::EXT_1008),
            1009u16 => Some(Opcode::EXT_1009),
            1010u16 => Some(Opcode::EXT_1010),
            1011u16 => Some(Opcode::EXT_1011),
            _ => None,
        }
    }

    /// Whether an instruction with this opcode carries a store byte.
    pub open spec fn spec_does_store(self, version: u8) -> bool {
        ||| self == Opcode::OP2_8 || self == Opcode::OP2_9 || self == Opcode::OP2_15 || self == Opcode::OP2_16 || self == Opcode::OP2_17 || self == Opcode::OP2_18 || self == Opcode::OP2_19 || self == Opcode::OP2_20 || self == Opcode::OP2_21 || self == Opcode::OP2_22 || self == Opcode::OP2_23 || self == Opcode::OP2_24 || self == Opcode::OP2_25 || self == Opcode::OP1_129 || self == Opcode::OP1_130 || self == Opcode::OP1_131 || self == Opcode::OP1_132 || self == Opcode::OP1_136 || self == Opcode::OP1_142 || self == Opcode::VAR_224 || self == Opcode::VAR_231 || self == Opcode::VAR_236 || self == Opcode::VAR_246 || self == Opcode::VAR_247 || self == Opcode::VAR_248 || self == Opcode::EXT_1000 || self == Opcode::EXT_1001 || self == Opcode::EXT_1002 || self == Opcode::EXT_1003 || self == Opcode::EXT_1004 || self == Opcode::EXT_1009 || self == Opcode::EXT_1010
        ||| (self == Opcode::OP1_143 && version <= 4)
        ||| (self == Opcode::OP0_185 && version >= 5)
        ||| (self == Opcode::OP0_181 && version == 4)
        ||| (self == Opcode::OP0_182 && version == 4)
        ||| (self == Opcode::VAR_228 && version >= 5)
        ||| (self == Opcode::VAR_233 && version == 6)
    }

    pub fn does_store(self, version: u8) -> (r: bool)
        ensures
            r == self.spec_does_store(version),
    {
        match self {
            Opcode::OP2_8 => true,
            Opcode::OP2_9 => true,
            Opcode::OP2_15 => true,
            Opcode::OP2_16 => true,
            Opcode::OP2_17 => true,
            Opcode::OP2_18 => true,
            Opcode::OP2_19 => true,
            Opcode::OP2_20 => true,
            Opcode::OP2_21 => true,
            Opcode::OP2_22 => true,
            Opcode::OP2_23 => true,
            Opcode::OP2_24 => true,
            Opcode::OP2_25 => true,
            Opcode::OP1_129 => true,
            Opcode::OP1_130 => true,
            Opcode::OP1_131 => true,
            Opcode::OP1_132 => true,
            Opcode::OP1_136 => true,
            Opcode::OP1_142 => true,
            Opcode::VAR_224 => true,
            Opcode::VAR_231 => true,
            Opcode::VAR_236 => true,
            Opcode::VAR_246 => true,
            Opcode::VAR_247 => true,
            Opcode::VAR_248 => true,
            Opcode::EXT_1000 => true,
            Opcode::EXT_1001 => true,
            Opcode::EXT_1002 => true,
            Opcode::EXT_1003 => true,
            Opcode::EXT_1004 => true,
            Opcode::EXT_1009 => true,
            Opcode::EXT_1010 => true,
            Opcode::OP1_143 => version <= 4,
            Opcode::OP0_185 => version >= 5,
            Opcode::OP0_181 => version == 4,
            Opcode::OP0_182 => version == 4,
            Opcode::VAR_228 => version >= 5,
            Opcode::VAR_233 => version == 6,
            _ => false,
        }
    }

    /// Whether an instruction with this opcode carries a branch descriptor.
    pub open spec fn spec_does_branch(self, version: u8) -> bool {
        ||| self == Opcode::OP2_1 || self == Opcode::OP2_2 || self == Opcode::OP2_3 || self == Opcode::OP2_4 || self == Opcode::OP2_5 || self == Opcode::OP2_6 || self == Opcode::OP2_7 || self == Opcode::OP2_10 || self == Opcode::OP1_128 || self == Opcode::OP1_129 || self == Opcode::OP1_130 || self == Opcode::OP0_189 || self == Opcode::OP0_191 || self == Opcode::VAR_247 || self == Opcode::VAR_255
        ||| (self == Opcode::OP0_181 && version <= 3)
        ||| (self == Opcode::OP0_182 && version <= 3)
    }

    pub fn does_branch(self, version: u8) -> (r: bool)
        ensures
            r == self.spec_does_branch(version),
    {
        match self {
            Opcode::OP2_1 => true,
            Opcode::OP2_2 => true,
            Opcode::OP2_3 => true,
            Opcode::OP2_4 => true,
            Opcode::OP2_5 => true,
            Opcode::OP2_6 => true,
            Opcode::OP2_7 => true,
            Opcode::OP2_10 => true,
            Opcode::OP1_128 => true,
            Opcode::OP1_129 => true,
            Opcode::OP1_130 => true,
            Opcode::OP0_189 => true,
            Opcode::OP0_191 => true,
            Opcode::VAR_247 => true,
            Opcode::VAR_255 => true,
            Opcode::OP0_181 => version <= 3,
            Opcode::OP0_182 => version <= 3,
            _ => false,
        }
    }

    /// Whether the opcode is followed by inline Z-string text.
    pub open spec fn spec_does_text(self) -> bool {
        self == Opcode::OP0_178 || self == Opcode::OP0_179
    }

    pub fn does_text(self) -> (r: bool)
        ensures
            r == self.spec_does_text(),
    {
        match self {
            Opcode::OP0_178 => true,
            Opcode::OP0_179 => true,
            _ => false,
        }
    }
}

/// One operand as encoded: an immediate byte, an immediate word, or a
/// variable to read at execution time.
#[derive(Copy, Clone, Eq, PartialEq, Debug, Structural)]
pub enum Operand {
    Small(u8),
    Large(u16),
    Variable(u8),
}

/// The operand kinds a type byte can select.
#[derive(Copy, Clone, Eq, PartialEq, Debug, Structural)]
pub enum OperandType {
    Large,
    Small,
    Variable,
    Omitted,
}

impl OperandType {
    /// The operand kind two type bits select.
    pub fn from_bits(bits: u8) -> (r: OperandType)
        ensures
            bits % 4 == 0 ==> r == OperandType::Large,
            bits % 4 == 1 ==> r == OperandType::Small,
            bits % 4 == 2 ==> r == OperandType::Variable,
            bits % 4 == 3 ==> r == OperandType::Omitted,
    {
        match bits % 4 {
            0 => OperandType::Large,
            1 => OperandType::Small,
            2 => OperandType::Variable,
            _ => OperandType::Omitted,
        }
    }
}

/// A decoded branch descriptor: the polarity the result is compared with,
/// and either a target address or, for the special offsets 0 and 1, a value
/// to return from the current routine.
#[derive(Copy, Clone, Eq, PartialEq, Debug, Structural)]
pub struct Branch {
    pub condition: u8,
    pub address: Option<usize>,
    pub returns: Option<u16>,
}

/// One decoded instruction. `branch_pos` records where the branch
/// descriptor's first byte sat, so that contracts can tie the decoded
/// branch to the encoded one.
pub struct Instruction {
    pub addr: usize,
    pub opcode: Opcode,
    pub operands: Vec<Operand>,
    pub store: Option<u8>,
    pub branch: Option<Branch>,
    pub branch_pos: Option<usize>,
    pub text: Option<Vec<char>>,
    pub next: usize,
}

impl Instruction {
    /// Whether the dispatcher advances the program counter after this
    /// instruction; jumps, calls, returns, restarts and quits manage the
    /// program counter themselves.
    pub open spec fn spec_advances(&self) -> bool {
        &&& self.opcode != Opcode::OP2_25
        &&& self.opcode != Opcode::OP2_26
        &&& self.opcode != Opcode::OP2_28
        &&& self.opcode != Opcode::OP1_136
        &&& self.opcode != Opcode::OP1_139
        &&& self.opcode != Opcode::OP1_140
        &&& self.opcode != Opcode::OP0_176
        &&& self.opcode != Opcode::OP0_177
        &&& self.opcode != Opcode::OP0_179
        &&& self.opcode != Opcode::OP0_183
        &&& self.opcode != Opcode::OP0_184
        &&& self.opcode != Opcode::OP0_186
        &&& self.opcode != Opcode::VAR_224
        &&& self.opcode != Opcode::VAR_236
        &&& self.opcode != Opcode::VAR_249
        &&& self.opcode != Opcode::VAR_250
        &&& self.opcode != Opcode::EXT_1010
    }

    pub fn advances(&self) -> (r: bool)
        ensures
            r == self.spec_advances(),
    {
        match self.opcode {
            Opcode::OP2_25 => false,
            Opcode::OP2_26 => false,
            Opcode::OP2_28 => false,
            Opcode::OP1_136 => false,
            Opcode::OP1_139 => false,
            Opcode::OP1_140 => false,
            Opcode::OP0_176 => false,
            Opcode::OP0_177 => false,
            Opcode::OP0_179 => false,
            Opcode::OP0_183 => false,
            Opcode::OP0_184 => false,
            Opcode::OP0_186 => false,
            Opcode::VAR_224 => false,
            Opcode::VAR_236 => false,
            Opcode::VAR_249 => false,
            Opcode::VAR_250 => false,
            Opcode::EXT_1010 => false,
            _ => true,
        }
    }

    /// `call_1n` exists only from version 5 on; below that, opcode 143 is a
    /// store instruction whose program counter the result path manages.
    pub open spec fn spec_should_advance(&self, version: u8) -> bool {
        !(self.opcode == Opcode::OP1_143 && version >= 5)
    }

    pub fn should_advance(&self, version: u8) -> (r: bool)
        ensures
            r == self.spec_should_advance(version),
    {
        !(matches!(self.opcode, Opcode::OP1_143) && version >= 5)
    }
}

} // verus!