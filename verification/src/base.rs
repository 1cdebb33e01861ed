//! The strings that names are made of, by index.
//!
//! A name is kept in every record of a body, so a name and the absence of one
//! together take no more room than a base and a suffix. That leaves the index
//! of a base one value of its highest byte short.

use vstd::prelude::*;

verus! {

/// A byte below 255. The value it never has stands for the absence of a byte.
#[derive(Clone, Copy, Debug, PartialEq, Eq, Structural, PartialOrd, Ord, Hash)]
enum ShortByte {
    B00, B01, B02, B03, B04, B05, B06, B07, B08, B09, B0A, B0B, B0C, B0D, B0E, B0F, B10, B11,
    B12, B13, B14, B15, B16, B17, B18, B19, B1A, B1B, B1C, B1D, B1E, B1F, B20, B21, B22, B23,
    B24, B25, B26, B27, B28, B29, B2A, B2B, B2C, B2D, B2E, B2F, B30, B31, B32, B33, B34, B35,
    B36, B37, B38, B39, B3A, B3B, B3C, B3D, B3E, B3F, B40, B41, B42, B43, B44, B45, B46, B47,
    B48, B49, B4A, B4B, B4C, B4D, B4E, B4F, B50, B51, B52, B53, B54, B55, B56, B57, B58, B59,
    B5A, B5B, B5C, B5D, B5E, B5F, B60, B61, B62, B63, B64, B65, B66, B67, B68, B69, B6A, B6B,
    B6C, B6D, B6E, B6F, B70, B71, B72, B73, B74, B75, B76, B77, B78, B79, B7A, B7B, B7C, B7D,
    B7E, B7F, B80, B81, B82, B83, B84, B85, B86, B87, B88, B89, B8A, B8B, B8C, B8D, B8E, B8F,
    B90, B91, B92, B93, B94, B95, B96, B97, B98, B99, B9A, B9B, B9C, B9D, B9E, B9F, BA0, BA1,
    BA2, BA3, BA4, BA5, BA6, BA7, BA8, BA9, BAA, BAB, BAC, BAD, BAE, BAF, BB0, BB1, BB2, BB3,
    BB4, BB5, BB6, BB7, BB8, BB9, BBA, BBB, BBC, BBD, BBE, BBF, BC0, BC1, BC2, BC3, BC4, BC5,
    BC6, BC7, BC8, BC9, BCA, BCB, BCC, BCD, BCE, BCF, BD0, BD1, BD2, BD3, BD4, BD5, BD6, BD7,
    BD8, BD9, BDA, BDB, BDC, BDD, BDE, BDF, BE0, BE1, BE2, BE3, BE4, BE5, BE6, BE7, BE8, BE9,
    BEA, BEB, BEC, BED, BEE, BEF, BF0, BF1, BF2, BF3, BF4, BF5, BF6, BF7, BF8, BF9, BFA, BFB,
    BFC, BFD, BFE,
}

/// How many bases there can be.
pub const BASE_LIMIT: u32 = 0xFF00_0000;

impl ShortByte {
    spec fn value(self) -> u8 {
        match self {
            ShortByte::B00 => 0,
            ShortByte::B01 => 1,
            ShortByte::B02 => 2,
            ShortByte::B03 => 3,
            ShortByte::B04 => 4,
            ShortByte::B05 => 5,
            ShortByte::B06 => 6,
            ShortByte::B07 => 7,
            ShortByte::B08 => 8,
            ShortByte::B09 => 9,
            ShortByte::B0A => 10,
            ShortByte::B0B => 11,
            ShortByte::B0C => 12,
            ShortByte::B0D => 13,
            ShortByte::B0E => 14,
            ShortByte::B0F => 15,
            ShortByte::B10 => 16,
            ShortByte::B11 => 17,
            ShortByte::B12 => 18,
            ShortByte::B13 => 19,
            ShortByte::B14 => 20,
            ShortByte::B15 => 21,
            ShortByte::B16 => 22,
            ShortByte::B17 => 23,
            ShortByte::B18 => 24,
            ShortByte::B19 => 25,
            ShortByte::B1A => 26,
            ShortByte::B1B => 27,
            ShortByte::B1C => 28,
            ShortByte::B1D => 29,
            ShortByte::B1E => 30,
            ShortByte::B1F => 31,
            ShortByte::B20 => 32,
            ShortByte::B21 => 33,
            ShortByte::B22 => 34,
            ShortByte::B23 => 35,
            ShortByte::B24 => 36,
            ShortByte::B25 => 37,
            ShortByte::B26 => 38,
            ShortByte::B27 => 39,
            ShortByte::B28 => 40,
            ShortByte::B29 => 41,
            ShortByte::B2A => 42,
            ShortByte::B2B => 43,
            ShortByte::B2C => 44,
            ShortByte::B2D => 45,
            ShortByte::B2E => 46,
            ShortByte::B2F => 47,
            ShortByte::B30 => 48,
            ShortByte::B31 => 49,
            ShortByte::B32 => 50,
            ShortByte::B33 => 51,
            ShortByte::B34 => 52,
            ShortByte::B35 => 53,
            ShortByte::B36 => 54,
            ShortByte::B37 => 55,
            ShortByte::B38 => 56,
            ShortByte::B39 => 57,
            ShortByte::B3A => 58,
            ShortByte::B3B => 59,
            ShortByte::B3C => 60,
            ShortByte::B3D => 61,
            ShortByte::B3E => 62,
            ShortByte::B3F => 63,
            ShortByte::B40 => 64,
            ShortByte::B41 => 65,
            ShortByte::B42 => 66,
            ShortByte::B43 => 67,
            ShortByte::B44 => 68,
            ShortByte::B45 => 69,
            ShortByte::B46 => 70,
            ShortByte::B47 => 71,
            ShortByte::B48 => 72,
            ShortByte::B49 => 73,
            ShortByte::B4A => 74,
            ShortByte::B4B => 75,
            ShortByte::B4C => 76,
            ShortByte::B4D => 77,
            ShortByte::B4E => 78,
            ShortByte::B4F => 79,
            ShortByte::B50 => 80,
            ShortByte::B51 => 81,
            ShortByte::B52 => 82,
            ShortByte::B53 => 83,
            ShortByte::B54 => 84,
            ShortByte::B55 => 85,
            ShortByte::B56 => 86,
            ShortByte::B57 => 87,
            ShortByte::B58 => 88,
            ShortByte::B59 => 89,
            ShortByte::B5A => 90,
            ShortByte::B5B => 91,
            ShortByte::B5C => 92,
            ShortByte::B5D => 93,
            ShortByte::B5E => 94,
            ShortByte::B5F => 95,
            ShortByte::B60 => 96,
            ShortByte::B61 => 97,
            ShortByte::B62 => 98,
            ShortByte::B63 => 99,
            ShortByte::B64 => 100,
            ShortByte::B65 => 101,
            ShortByte::B66 => 102,
            ShortByte::B67 => 103,
            ShortByte::B68 => 104,
            ShortByte::B69 => 105,
            ShortByte::B6A => 106,
            ShortByte::B6B => 107,
            ShortByte::B6C => 108,
            ShortByte::B6D => 109,
            ShortByte::B6E => 110,
            ShortByte::B6F => 111,
            ShortByte::B70 => 112,
            ShortByte::B71 => 113,
            ShortByte::B72 => 114,
            ShortByte::B73 => 115,
            ShortByte::B74 => 116,
            ShortByte::B75 => 117,
            ShortByte::B76 => 118,
            ShortByte::B77 => 119,
            ShortByte::B78 => 120,
            ShortByte::B79 => 121,
            ShortByte::B7A => 122,
            ShortByte::B7B => 123,
            ShortByte::B7C => 124,
            ShortByte::B7D => 125,
            ShortByte::B7E => 126,
            ShortByte::B7F => 127,
            ShortByte::B80 => 128,
            ShortByte::B81 => 129,
            ShortByte::B82 => 130,
            ShortByte::B83 => 131,
            ShortByte::B84 => 132,
            ShortByte::B85 => 133,
            ShortByte::B86 => 134,
            ShortByte::B87 => 135,
            ShortByte::B88 => 136,
            ShortByte::B89 => 137,
            ShortByte::B8A => 138,
            ShortByte::B8B => 139,
            ShortByte::B8C => 140,
            ShortByte::B8D => 141,
            ShortByte::B8E => 142,
            ShortByte::B8F => 143,
            ShortByte::B90 => 144,
            ShortByte::B91 => 145,
            ShortByte::B92 => 146,
            ShortByte::B93 => 147,
            ShortByte::B94 => 148,
            ShortByte::B95 => 149,
            ShortByte::B96 => 150,
            ShortByte::B97 => 151,
            ShortByte::B98 => 152,
            ShortByte::B99 => 153,
            ShortByte::B9A => 154,
            ShortByte::B9B => 155,
            ShortByte::B9C => 156,
            ShortByte::B9D => 157,
            ShortByte::B9E => 158,
            ShortByte::B9F => 159,
            ShortByte::BA0 => 160,
            ShortByte::BA1 => 161,
            ShortByte::BA2 => 162,
            ShortByte::BA3 => 163,
            ShortByte::BA4 => 164,
            ShortByte::BA5 => 165,
            ShortByte::BA6 => 166,
            ShortByte::BA7 => 167,
            ShortByte::BA8 => 168,
            ShortByte::BA9 => 169,
            ShortByte::BAA => 170,
            ShortByte::BAB => 171,
            ShortByte::BAC => 172,
            ShortByte::BAD => 173,
            ShortByte::BAE => 174,
            ShortByte::BAF => 175,
            ShortByte::BB0 => 176,
            ShortByte::BB1 => 177,
            ShortByte::BB2 => 178,
            ShortByte::BB3 => 179,
            ShortByte::BB4 => 180,
            ShortByte::BB5 => 181,
            ShortByte::BB6 => 182,
            ShortByte::BB7 => 183,
            ShortByte::BB8 => 184,
            ShortByte::BB9 => 185,
            ShortByte::BBA => 186,
            ShortByte::BBB => 187,
            ShortByte::BBC => 188,
            ShortByte::BBD => 189,
            ShortByte::BBE => 190,
            ShortByte::BBF => 191,
            ShortByte::BC0 => 192,
            ShortByte::BC1 => 193,
            ShortByte::BC2 => 194,
            ShortByte::BC3 => 195,
            ShortByte::BC4 => 196,
            ShortByte::BC5 => 197,
            ShortByte::BC6 => 198,
            ShortByte::BC7 => 199,
            ShortByte::BC8 => 200,
            ShortByte::BC9 => 201,
            ShortByte::BCA => 202,
            ShortByte::BCB => 203,
            ShortByte::BCC => 204,
            ShortByte::BCD => 205,
            ShortByte::BCE => 206,
            ShortByte::BCF => 207,
            ShortByte::BD0 => 208,
            ShortByte::BD1 => 209,
            ShortByte::BD2 => 210,
            ShortByte::BD3 => 211,
            ShortByte::BD4 => 212,
            ShortByte::BD5 => 213,
            ShortByte::BD6 => 214,
            ShortByte::BD7 => 215,
            ShortByte::BD8 => 216,
            ShortByte::BD9 => 217,
            ShortByte::BDA => 218,
            ShortByte::BDB => 219,
            ShortByte::BDC => 220,
            ShortByte::BDD => 221,
            ShortByte::BDE => 222,
            ShortByte::BDF => 223,
            ShortByte::BE0 => 224,
            ShortByte::BE1 => 225,
            ShortByte::BE2 => 226,
            ShortByte::BE3 => 227,
            ShortByte::BE4 => 228,
            ShortByte::BE5 => 229,
            ShortByte::BE6 => 230,
            ShortByte::BE7 => 231,
            ShortByte::BE8 => 232,
            ShortByte::BE9 => 233,
            ShortByte::BEA => 234,
            ShortByte::BEB => 235,
            ShortByte::BEC => 236,
            ShortByte::BED => 237,
            ShortByte::BEE => 238,
            ShortByte::BEF => 239,
            ShortByte::BF0 => 240,
            ShortByte::BF1 => 241,
            ShortByte::BF2 => 242,
            ShortByte::BF3 => 243,
            ShortByte::BF4 => 244,
            ShortByte::BF5 => 245,
            ShortByte::BF6 => 246,
            ShortByte::BF7 => 247,
            ShortByte::BF8 => 248,
            ShortByte::BF9 => 249,
            ShortByte::BFA => 250,
            ShortByte::BFB => 251,
            ShortByte::BFC => 252,
            ShortByte::BFD => 253,
            ShortByte::BFE => 254,
        }
    }

    spec fn of(byte: u8) -> ShortByte {
        match byte {
            0 => ShortByte::B00,
            1 => ShortByte::B01,
            2 => ShortByte::B02,
            3 => ShortByte::B03,
            4 => ShortByte::B04,
            5 => ShortByte::B05,
            6 => ShortByte::B06,
            7 => ShortByte::B07,
            8 => ShortByte::B08,
            9 => ShortByte::B09,
            10 => ShortByte::B0A,
            11 => ShortByte::B0B,
            12 => ShortByte::B0C,
            13 => ShortByte::B0D,
            14 => ShortByte::B0E,
            15 => ShortByte::B0F,
            16 => ShortByte::B10,
            17 => ShortByte::B11,
            18 => ShortByte::B12,
            19 => ShortByte::B13,
            20 => ShortByte::B14,
            21 => ShortByte::B15,
            22 => ShortByte::B16,
            23 => ShortByte::B17,
            24 => ShortByte::B18,
            25 => ShortByte::B19,
            26 => ShortByte::B1A,
            27 => ShortByte::B1B,
            28 => ShortByte::B1C,
            29 => ShortByte::B1D,
            30 => ShortByte::B1E,
            31 => ShortByte::B1F,
            32 => ShortByte::B20,
            33 => ShortByte::B21,
            34 => ShortByte::B22,
            35 => ShortByte::B23,
            36 => ShortByte::B24,
            37 => ShortByte::B25,
            38 => ShortByte::B26,
            39 => ShortByte::B27,
            40 => ShortByte::B28,
            41 => ShortByte::B29,
            42 => ShortByte::B2A,
            43 => ShortByte::B2B,
            44 => ShortByte::B2C,
            45 => ShortByte::B2D,
            46 => ShortByte::B2E,
            47 => ShortByte::B2F,
            48 => ShortByte::B30,
            49 => ShortByte::B31,
            50 => ShortByte::B32,
            51 => ShortByte::B33,
            52 => ShortByte::B34,
            53 => ShortByte::B35,
            54 => ShortByte::B36,
            55 => ShortByte::B37,
            56 => ShortByte::B38,
            57 => ShortByte::B39,
            58 => ShortByte::B3A,
            59 => ShortByte::B3B,
            60 => ShortByte::B3C,
            61 => ShortByte::B3D,
            62 => ShortByte::B3E,
            63 => ShortByte::B3F,
            64 => ShortByte::B40,
            65 => ShortByte::B41,
            66 => ShortByte::B42,
            67 => ShortByte::B43,
            68 => ShortByte::B44,
            69 => ShortByte::B45,
            70 => ShortByte::B46,
            71 => ShortByte::B47,
            72 => ShortByte::B48,
            73 => ShortByte::B49,
            74 => ShortByte::B4A,
            75 => ShortByte::B4B,
            76 => ShortByte::B4C,
            77 => ShortByte::B4D,
            78 => ShortByte::B4E,
            79 => ShortByte::B4F,
            80 => ShortByte::B50,
            81 => ShortByte::B51,
            82 => ShortByte::B52,
            83 => ShortByte::B53,
            84 => ShortByte::B54,
            85 => ShortByte::B55,
            86 => ShortByte::B56,
            87 => ShortByte::B57,
            88 => ShortByte::B58,
            89 => ShortByte::B59,
            90 => ShortByte::B5A,
            91 => ShortByte::B5B,
            92 => ShortByte::B5C,
            93 => ShortByte::B5D,
            94 => ShortByte::B5E,
            95 => ShortByte::B5F,
            96 => ShortByte::B60,
            97 => ShortByte::B61,
            98 => ShortByte::B62,
            99 => ShortByte::B63,
            100 => ShortByte::B64,
            101 => ShortByte::B65,
            102 => ShortByte::B66,
            103 => ShortByte::B67,
            104 => ShortByte::B68,
            105 => ShortByte::B69,
            106 => ShortByte::B6A,
            107 => ShortByte::B6B,
            108 => ShortByte::B6C,
            109 => ShortByte::B6D,
            110 => ShortByte::B6E,
            111 => ShortByte::B6F,
            112 => ShortByte::B70,
            113 => ShortByte::B71,
            114 => ShortByte::B72,
            115 => ShortByte::B73,
            116 => ShortByte::B74,
            117 => ShortByte::B75,
            118 => ShortByte::B76,
            119 => ShortByte::B77,
            120 => ShortByte::B78,
            121 => ShortByte::B79,
            122 => ShortByte::B7A,
            123 => ShortByte::B7B,
            124 => ShortByte::B7C,
            125 => ShortByte::B7D,
            126 => ShortByte::B7E,
            127 => ShortByte::B7F,
            128 => ShortByte::B80,
            129 => ShortByte::B81,
            130 => ShortByte::B82,
            131 => ShortByte::B83,
            132 => ShortByte::B84,
            133 => ShortByte::B85,
            134 => ShortByte::B86,
            135 => ShortByte::B87,
            136 => ShortByte::B88,
            137 => ShortByte::B89,
            138 => ShortByte::B8A,
            139 => ShortByte::B8B,
            140 => ShortByte::B8C,
            141 => ShortByte::B8D,
            142 => ShortByte::B8E,
            143 => ShortByte::B8F,
            144 => ShortByte::B90,
            145 => ShortByte::B91,
            146 => ShortByte::B92,
            147 => ShortByte::B93,
            148 => ShortByte::B94,
            149 => ShortByte::B95,
            150 => ShortByte::B96,
            151 => ShortByte::B97,
            152 => ShortByte::B98,
            153 => ShortByte::B99,
            154 => ShortByte::B9A,
            155 => ShortByte::B9B,
            156 => ShortByte::B9C,
            157 => ShortByte::B9D,
            158 => ShortByte::B9E,
            159 => ShortByte::B9F,
            160 => ShortByte::BA0,
            161 => ShortByte::BA1,
            162 => ShortByte::BA2,
            163 => ShortByte::BA3,
            164 => ShortByte::BA4,
            165 => ShortByte::BA5,
            166 => ShortByte::BA6,
            167 => ShortByte::BA7,
            168 => ShortByte::BA8,
            169 => ShortByte::BA9,
            170 => ShortByte::BAA,
            171 => ShortByte::BAB,
            172 => ShortByte::BAC,
            173 => ShortByte::BAD,
            174 => ShortByte::BAE,
            175 => ShortByte::BAF,
            176 => ShortByte::BB0,
            177 => ShortByte::BB1,
            178 => ShortByte::BB2,
            179 => ShortByte::BB3,
            180 => ShortByte::BB4,
            181 => ShortByte::BB5,
            182 => ShortByte::BB6,
            183 => ShortByte::BB7,
            184 => ShortByte::BB8,
            185 => ShortByte::BB9,
            186 => ShortByte::BBA,
            187 => ShortByte::BBB,
            188 => ShortByte::BBC,
            189 => ShortByte::BBD,
            190 => ShortByte::BBE,
            191 => ShortByte::BBF,
            192 => ShortByte::BC0,
            193 => ShortByte::BC1,
            194 => ShortByte::BC2,
            195 => ShortByte::BC3,
            196 => ShortByte::BC4,
            197 => ShortByte::BC5,
            198 => ShortByte::BC6,
            199 => ShortByte::BC7,
            200 => ShortByte::BC8,
            201 => ShortByte::BC9,
            202 => ShortByte::BCA,
            203 => ShortByte::BCB,
            204 => ShortByte::BCC,
            205 => ShortByte::BCD,
            206 => ShortByte::BCE,
            207 => ShortByte::BCF,
            208 => ShortByte::BD0,
            209 => ShortByte::BD1,
            210 => ShortByte::BD2,
            211 => ShortByte::BD3,
            212 => ShortByte::BD4,
            213 => ShortByte::BD5,
            214 => ShortByte::BD6,
            215 => ShortByte::BD7,
            216 => ShortByte::BD8,
            217 => ShortByte::BD9,
            218 => ShortByte::BDA,
            219 => ShortByte::BDB,
            220 => ShortByte::BDC,
            221 => ShortByte::BDD,
            222 => ShortByte::BDE,
            223 => ShortByte::BDF,
            224 => ShortByte::BE0,
            225 => ShortByte::BE1,
            226 => ShortByte::BE2,
            227 => ShortByte::BE3,
            228 => ShortByte::BE4,
            229 => ShortByte::BE5,
            230 => ShortByte::BE6,
            231 => ShortByte::BE7,
            232 => ShortByte::BE8,
            233 => ShortByte::BE9,
            234 => ShortByte::BEA,
            235 => ShortByte::BEB,
            236 => ShortByte::BEC,
            237 => ShortByte::BED,
            238 => ShortByte::BEE,
            239 => ShortByte::BEF,
            240 => ShortByte::BF0,
            241 => ShortByte::BF1,
            242 => ShortByte::BF2,
            243 => ShortByte::BF3,
            244 => ShortByte::BF4,
            245 => ShortByte::BF5,
            246 => ShortByte::BF6,
            247 => ShortByte::BF7,
            248 => ShortByte::BF8,
            249 => ShortByte::BF9,
            250 => ShortByte::BFA,
            251 => ShortByte::BFB,
            252 => ShortByte::BFC,
            253 => ShortByte::BFD,
            _ => ShortByte::BFE,
        }
    }

    fn get(self) -> (byte: u8)
        ensures
            byte == self.value(),
    {
        match self {
            ShortByte::B00 => 0,
            ShortByte::B01 => 1,
            ShortByte::B02 => 2,
            ShortByte::B03 => 3,
            ShortByte::B04 => 4,
            ShortByte::B05 => 5,
            ShortByte::B06 => 6,
            ShortByte::B07 => 7,
            ShortByte::B08 => 8,
            ShortByte::B09 => 9,
            ShortByte::B0A => 10,
            ShortByte::B0B => 11,
            ShortByte::B0C => 12,
            ShortByte::B0D => 13,
            ShortByte::B0E => 14,
            ShortByte::B0F => 15,
            ShortByte::B10 => 16,
            ShortByte::B11 => 17,
            ShortByte::B12 => 18,
            ShortByte::B13 => 19,
            ShortByte::B14 => 20,
            ShortByte::B15 => 21,
            ShortByte::B16 => 22,
            ShortByte::B17 => 23,
            ShortByte::B18 => 24,
            ShortByte::B19 => 25,
            ShortByte::B1A => 26,
            ShortByte::B1B => 27,
            ShortByte::B1C => 28,
            ShortByte::B1D => 29,
            ShortByte::B1E => 30,
            ShortByte::B1F => 31,
            ShortByte::B20 => 32,
            ShortByte::B21 => 33,
            ShortByte::B22 => 34,
            ShortByte::B23 => 35,
            ShortByte::B24 => 36,
            ShortByte::B25 => 37,
            ShortByte::B26 => 38,
            ShortByte::B27 => 39,
            ShortByte::B28 => 40,
            ShortByte::B29 => 41,
            ShortByte::B2A => 42,
            ShortByte::B2B => 43,
            ShortByte::B2C => 44,
            ShortByte::B2D => 45,
            ShortByte::B2E => 46,
            ShortByte::B2F => 47,
            ShortByte::B30 => 48,
            ShortByte::B31 => 49,
            ShortByte::B32 => 50,
            ShortByte::B33 => 51,
            ShortByte::B34 => 52,
            ShortByte::B35 => 53,
            ShortByte::B36 => 54,
            ShortByte::B37 => 55,
            ShortByte::B38 => 56,
            ShortByte::B39 => 57,
            ShortByte::B3A => 58,
            ShortByte::B3B => 59,
            ShortByte::B3C => 60,
            ShortByte::B3D => 61,
            ShortByte::B3E => 62,
            ShortByte::B3F => 63,
            ShortByte::B40 => 64,
            ShortByte::B41 => 65,
            ShortByte::B42 => 66,
            ShortByte::B43 => 67,
            ShortByte::B44 => 68,
            ShortByte::B45 => 69,
            ShortByte::B46 => 70,
            ShortByte::B47 => 71,
            ShortByte::B48 => 72,
            ShortByte::B49 => 73,
            ShortByte::B4A => 74,
            ShortByte::B4B => 75,
            ShortByte::B4C => 76,
            ShortByte::B4D => 77,
            ShortByte::B4E => 78,
            ShortByte::B4F => 79,
            ShortByte::B50 => 80,
            ShortByte::B51 => 81,
            ShortByte::B52 => 82,
            ShortByte::B53 => 83,
            ShortByte::B54 => 84,
            ShortByte::B55 => 85,
            ShortByte::B56 => 86,
            ShortByte::B57 => 87,
            ShortByte::B58 => 88,
            ShortByte::B59 => 89,
            ShortByte::B5A => 90,
            ShortByte::B5B => 91,
            ShortByte::B5C => 92,
            ShortByte::B5D => 93,
            ShortByte::B5E => 94,
            ShortByte::B5F => 95,
            ShortByte::B60 => 96,
            ShortByte::B61 => 97,
            ShortByte::B62 => 98,
            ShortByte::B63 => 99,
            ShortByte::B64 => 100,
            ShortByte::B65 => 101,
            ShortByte::B66 => 102,
            ShortByte::B67 => 103,
            ShortByte::B68 => 104,
            ShortByte::B69 => 105,
            ShortByte::B6A => 106,
            ShortByte::B6B => 107,
            ShortByte::B6C => 108,
            ShortByte::B6D => 109,
            ShortByte::B6E => 110,
            ShortByte::B6F => 111,
            ShortByte::B70 => 112,
            ShortByte::B71 => 113,
            ShortByte::B72 => 114,
            ShortByte::B73 => 115,
            ShortByte::B74 => 116,
            ShortByte::B75 => 117,
            ShortByte::B76 => 118,
            ShortByte::B77 => 119,
            ShortByte::B78 => 120,
            ShortByte::B79 => 121,
            ShortByte::B7A => 122,
            ShortByte::B7B => 123,
            ShortByte::B7C => 124,
            ShortByte::B7D => 125,
            ShortByte::B7E => 126,
            ShortByte::B7F => 127,
            ShortByte::B80 => 128,
            ShortByte::B81 => 129,
            ShortByte::B82 => 130,
            ShortByte::B83 => 131,
            ShortByte::B84 => 132,
            ShortByte::B85 => 133,
            ShortByte::B86 => 134,
            ShortByte::B87 => 135,
            ShortByte::B88 => 136,
            ShortByte::B89 => 137,
            ShortByte::B8A => 138,
            ShortByte::B8B => 139,
            ShortByte::B8C => 140,
            ShortByte::B8D => 141,
            ShortByte::B8E => 142,
            ShortByte::B8F => 143,
            ShortByte::B90 => 144,
            ShortByte::B91 => 145,
            ShortByte::B92 => 146,
            ShortByte::B93 => 147,
            ShortByte::B94 => 148,
            ShortByte::B95 => 149,
            ShortByte::B96 => 150,
            ShortByte::B97 => 151,
            ShortByte::B98 => 152,
            ShortByte::B99 => 153,
            ShortByte::B9A => 154,
            ShortByte::B9B => 155,
            ShortByte::B9C => 156,
            ShortByte::B9D => 157,
            ShortByte::B9E => 158,
            ShortByte::B9F => 159,
            ShortByte::BA0 => 160,
            ShortByte::BA1 => 161,
            ShortByte::BA2 => 162,
            ShortByte::BA3 => 163,
            ShortByte::BA4 => 164,
            ShortByte::BA5 => 165,
            ShortByte::BA6 => 166,
            ShortByte::BA7 => 167,
            ShortByte::BA8 => 168,
            ShortByte::BA9 => 169,
            ShortByte::BAA => 170,
            ShortByte::BAB => 171,
            ShortByte::BAC => 172,
            ShortByte::BAD => 173,
            ShortByte::BAE => 174,
            ShortByte::BAF => 175,
            ShortByte::BB0 => 176,
            ShortByte::BB1 => 177,
            ShortByte::BB2 => 178,
            ShortByte::BB3 => 179,
            ShortByte::BB4 => 180,
            ShortByte::BB5 => 181,
            ShortByte::BB6 => 182,
            ShortByte::BB7 => 183,
            ShortByte::BB8 => 184,
            ShortByte::BB9 => 185,
            ShortByte::BBA => 186,
            ShortByte::BBB => 187,
            ShortByte::BBC => 188,
            ShortByte::BBD => 189,
            ShortByte::BBE => 190,
            ShortByte::BBF => 191,
            ShortByte::BC0 => 192,
            ShortByte::BC1 => 193,
            ShortByte::BC2 => 194,
            ShortByte::BC3 => 195,
            ShortByte::BC4 => 196,
            ShortByte::BC5 => 197,
            ShortByte::BC6 => 198,
            ShortByte::BC7 => 199,
            ShortByte::BC8 => 200,
            ShortByte::BC9 => 201,
            ShortByte::BCA => 202,
            ShortByte::BCB => 203,
            ShortByte::BCC => 204,
            ShortByte::BCD => 205,
            ShortByte::BCE => 206,
            ShortByte::BCF => 207,
            ShortByte::BD0 => 208,
            ShortByte::BD1 => 209,
            ShortByte::BD2 => 210,
            ShortByte::BD3 => 211,
            ShortByte::BD4 => 212,
            ShortByte::BD5 => 213,
            ShortByte::BD6 => 214,
            ShortByte::BD7 => 215,
            ShortByte::BD8 => 216,
            ShortByte::BD9 => 217,
            ShortByte::BDA => 218,
            ShortByte::BDB => 219,
            ShortByte::BDC => 220,
            ShortByte::BDD => 221,
            ShortByte::BDE => 222,
            ShortByte::BDF => 223,
            ShortByte::BE0 => 224,
            ShortByte::BE1 => 225,
            ShortByte::BE2 => 226,
            ShortByte::BE3 => 227,
            ShortByte::BE4 => 228,
            ShortByte::BE5 => 229,
            ShortByte::BE6 => 230,
            ShortByte::BE7 => 231,
            ShortByte::BE8 => 232,
            ShortByte::BE9 => 233,
            ShortByte::BEA => 234,
            ShortByte::BEB => 235,
            ShortByte::BEC => 236,
            ShortByte::BED => 237,
            ShortByte::BEE => 238,
            ShortByte::BEF => 239,
            ShortByte::BF0 => 240,
            ShortByte::BF1 => 241,
            ShortByte::BF2 => 242,
            ShortByte::BF3 => 243,
            ShortByte::BF4 => 244,
            ShortByte::BF5 => 245,
            ShortByte::BF6 => 246,
            ShortByte::BF7 => 247,
            ShortByte::BF8 => 248,
            ShortByte::BF9 => 249,
            ShortByte::BFA => 250,
            ShortByte::BFB => 251,
            ShortByte::BFC => 252,
            ShortByte::BFD => 253,
            ShortByte::BFE => 254,
        }
    }

    fn new(byte: u8) -> (short: ShortByte)
        requires
            byte < 255,
        ensures
            short == ShortByte::of(byte),
    {
        match byte {
            0 => ShortByte::B00,
            1 => ShortByte::B01,
            2 => ShortByte::B02,
            3 => ShortByte::B03,
            4 => ShortByte::B04,
            5 => ShortByte::B05,
            6 => ShortByte::B06,
            7 => ShortByte::B07,
            8 => ShortByte::B08,
            9 => ShortByte::B09,
            10 => ShortByte::B0A,
            11 => ShortByte::B0B,
            12 => ShortByte::B0C,
            13 => ShortByte::B0D,
            14 => ShortByte::B0E,
            15 => ShortByte::B0F,
            16 => ShortByte::B10,
            17 => ShortByte::B11,
            18 => ShortByte::B12,
            19 => ShortByte::B13,
            20 => ShortByte::B14,
            21 => ShortByte::B15,
            22 => ShortByte::B16,
            23 => ShortByte::B17,
            24 => ShortByte::B18,
            25 => ShortByte::B19,
            26 => ShortByte::B1A,
            27 => ShortByte::B1B,
            28 => ShortByte::B1C,
            29 => ShortByte::B1D,
            30 => ShortByte::B1E,
            31 => ShortByte::B1F,
            32 => ShortByte::B20,
            33 => ShortByte::B21,
            34 => ShortByte::B22,
            35 => ShortByte::B23,
            36 => ShortByte::B24,
            37 => ShortByte::B25,
            38 => ShortByte::B26,
            39 => ShortByte::B27,
            40 => ShortByte::B28,
            41 => ShortByte::B29,
            42 => ShortByte::B2A,
            43 => ShortByte::B2B,
            44 => ShortByte::B2C,
            45 => ShortByte::B2D,
            46 => ShortByte::B2E,
            47 => ShortByte::B2F,
            48 => ShortByte::B30,
            49 => ShortByte::B31,
            50 => ShortByte::B32,
            51 => ShortByte::B33,
            52 => ShortByte::B34,
            53 => ShortByte::B35,
            54 => ShortByte::B36,
            55 => ShortByte::B37,
            56 => ShortByte::B38,
            57 => ShortByte::B39,
            58 => ShortByte::B3A,
            59 => ShortByte::B3B,
            60 => ShortByte::B3C,
            61 => ShortByte::B3D,
            62 => ShortByte::B3E,
            63 => ShortByte::B3F,
            64 => ShortByte::B40,
            65 => ShortByte::B41,
            66 => ShortByte::B42,
            67 => ShortByte::B43,
            68 => ShortByte::B44,
            69 => ShortByte::B45,
            70 => ShortByte::B46,
            71 => ShortByte::B47,
            72 => ShortByte::B48,
            73 => ShortByte::B49,
            74 => ShortByte::B4A,
            75 => ShortByte::B4B,
            76 => ShortByte::B4C,
            77 => ShortByte::B4D,
            78 => ShortByte::B4E,
            79 => ShortByte::B4F,
            80 => ShortByte::B50,
            81 => ShortByte::B51,
            82 => ShortByte::B52,
            83 => ShortByte::B53,
            84 => ShortByte::B54,
            85 => ShortByte::B55,
            86 => ShortByte::B56,
            87 => ShortByte::B57,
            88 => ShortByte::B58,
            89 => ShortByte::B59,
            90 => ShortByte::B5A,
            91 => ShortByte::B5B,
            92 => ShortByte::B5C,
            93 => ShortByte::B5D,
            94 => ShortByte::B5E,
            95 => ShortByte::B5F,
            96 => ShortByte::B60,
            97 => ShortByte::B61,
            98 => ShortByte::B62,
            99 => ShortByte::B63,
            100 => ShortByte::B64,
            101 => ShortByte::B65,
            102 => ShortByte::B66,
            103 => ShortByte::B67,
            104 => ShortByte::B68,
            105 => ShortByte::B69,
            106 => ShortByte::B6A,
            107 => ShortByte::B6B,
            108 => ShortByte::B6C,
            109 => ShortByte::B6D,
            110 => ShortByte::B6E,
            111 => ShortByte::B6F,
            112 => ShortByte::B70,
            113 => ShortByte::B71,
            114 => ShortByte::B72,
            115 => ShortByte::B73,
            116 => ShortByte::B74,
            117 => ShortByte::B75,
            118 => ShortByte::B76,
            119 => ShortByte::B77,
            120 => ShortByte::B78,
            121 => ShortByte::B79,
            122 => ShortByte::B7A,
            123 => ShortByte::B7B,
            124 => ShortByte::B7C,
            125 => ShortByte::B7D,
            126 => ShortByte::B7E,
            127 => ShortByte::B7F,
            128 => ShortByte::B80,
            129 => ShortByte::B81,
            130 => ShortByte::B82,
            131 => ShortByte::B83,
            132 => ShortByte::B84,
            133 => ShortByte::B85,
            134 => ShortByte::B86,
            135 => ShortByte::B87,
            136 => ShortByte::B88,
            137 => ShortByte::B89,
            138 => ShortByte::B8A,
            139 => ShortByte::B8B,
            140 => ShortByte::B8C,
            141 => ShortByte::B8D,
            142 => ShortByte::B8E,
            143 => ShortByte::B8F,
            144 => ShortByte::B90,
            145 => ShortByte::B91,
            146 => ShortByte::B92,
            147 => ShortByte::B93,
            148 => ShortByte::B94,
            149 => ShortByte::B95,
            150 => ShortByte::B96,
            151 => ShortByte::B97,
            152 => ShortByte::B98,
            153 => ShortByte::B99,
            154 => ShortByte::B9A,
            155 => ShortByte::B9B,
            156 => ShortByte::B9C,
            157 => ShortByte::B9D,
            158 => ShortByte::B9E,
            159 => ShortByte::B9F,
            160 => ShortByte::BA0,
            161 => ShortByte::BA1,
            162 => ShortByte::BA2,
            163 => ShortByte::BA3,
            164 => ShortByte::BA4,
            165 => ShortByte::BA5,
            166 => ShortByte::BA6,
            167 => ShortByte::BA7,
            168 => ShortByte::BA8,
            169 => ShortByte::BA9,
            170 => ShortByte::BAA,
            171 => ShortByte::BAB,
            172 => ShortByte::BAC,
            173 => ShortByte::BAD,
            174 => ShortByte::BAE,
            175 => ShortByte::BAF,
            176 => ShortByte::BB0,
            177 => ShortByte::BB1,
            178 => ShortByte::BB2,
            179 => ShortByte::BB3,
            180 => ShortByte::BB4,
            181 => ShortByte::BB5,
            182 => ShortByte::BB6,
            183 => ShortByte::BB7,
            184 => ShortByte::BB8,
            185 => ShortByte::BB9,
            186 => ShortByte::BBA,
            187 => ShortByte::BBB,
            188 => ShortByte::BBC,
            189 => ShortByte::BBD,
            190 => ShortByte::BBE,
            191 => ShortByte::BBF,
            192 => ShortByte::BC0,
            193 => ShortByte::BC1,
            194 => ShortByte::BC2,
            195 => ShortByte::BC3,
            196 => ShortByte::BC4,
            197 => ShortByte::BC5,
            198 => ShortByte::BC6,
            199 => ShortByte::BC7,
            200 => ShortByte::BC8,
            201 => ShortByte::BC9,
            202 => ShortByte::BCA,
            203 => ShortByte::BCB,
            204 => ShortByte::BCC,
            205 => ShortByte::BCD,
            206 => ShortByte::BCE,
            207 => ShortByte::BCF,
            208 => ShortByte::BD0,
            209 => ShortByte::BD1,
            210 => ShortByte::BD2,
            211 => ShortByte::BD3,
            212 => ShortByte::BD4,
            213 => ShortByte::BD5,
            214 => ShortByte::BD6,
            215 => ShortByte::BD7,
            216 => ShortByte::BD8,
            217 => ShortByte::BD9,
            218 => ShortByte::BDA,
            219 => ShortByte::BDB,
            220 => ShortByte::BDC,
            221 => ShortByte::BDD,
            222 => ShortByte::BDE,
            223 => ShortByte::BDF,
            224 => ShortByte::BE0,
            225 => ShortByte::BE1,
            226 => ShortByte::BE2,
            227 => ShortByte::BE3,
            228 => ShortByte::BE4,
            229 => ShortByte::BE5,
            230 => ShortByte::BE6,
            231 => ShortByte::BE7,
            232 => ShortByte::BE8,
            233 => ShortByte::BE9,
            234 => ShortByte::BEA,
            235 => ShortByte::BEB,
            236 => ShortByte::BEC,
            237 => ShortByte::BED,
            238 => ShortByte::BEE,
            239 => ShortByte::BEF,
            240 => ShortByte::BF0,
            241 => ShortByte::BF1,
            242 => ShortByte::BF2,
            243 => ShortByte::BF3,
            244 => ShortByte::BF4,
            245 => ShortByte::BF5,
            246 => ShortByte::BF6,
            247 => ShortByte::BF7,
            248 => ShortByte::BF8,
            249 => ShortByte::BF9,
            250 => ShortByte::BFA,
            251 => ShortByte::BFB,
            252 => ShortByte::BFC,
            253 => ShortByte::BFD,
            _ => ShortByte::BFE,
        }
    }

    proof fn lemma_of_value(self)
        ensures
            ShortByte::of(self.value()) == self,
            self.value() < 255,
    {
    }

    proof fn lemma_value_of(byte: u8)
        requires
            byte < 255,
        ensures
            ShortByte::of(byte).value() == byte,
    {
    }
}

/// A base that a name table interns: `rax`, `tmp`, `loop`.
#[derive(Clone, Copy, Debug, PartialEq, Eq, Structural, PartialOrd, Ord, Hash)]
pub struct BaseId {
    top: ShortByte,
    mid: u8,
    low: u16,
}

impl BaseId {
    /// The base of the index `raw`, which is below the limit.
    pub closed spec fn spec_new(raw: u32) -> BaseId {
        BaseId {
            top: ShortByte::of((raw / 0x100_0000) as u8),
            mid: (raw / 0x1_0000 % 0x100) as u8,
            low: (raw % 0x1_0000) as u16,
        }
    }

    /// The index this identifier stands for.
    pub closed spec fn spec_raw(self) -> u32 {
        (self.top.value() * 0x100_0000 + self.mid * 0x1_0000 + self.low) as u32
    }

    /// The base of the index `raw`.
    #[verifier::when_used_as_spec(spec_new)]
    pub fn new(raw: u32) -> (id: BaseId)
        requires
            raw < BASE_LIMIT,
        ensures
            id == BaseId::spec_new(raw),
            id.spec_raw() == raw,
    {
        proof {
            lemma_base_at(raw);
        }
        BaseId {
            top: ShortByte::new((raw / 0x100_0000) as u8),
            mid: (raw / 0x1_0000 % 0x100) as u8,
            low: (raw % 0x1_0000) as u16,
        }
    }

    /// The index this identifier stands for.
    #[verifier::when_used_as_spec(spec_raw)]
    pub fn raw(self) -> (raw: u32)
        ensures
            raw == self.spec_raw(),
            raw < BASE_LIMIT,
    {
        proof {
            lemma_base_raw(self);
            self.top.lemma_of_value();
        }
        self.top.get() as u32 * 0x100_0000 + self.mid as u32 * 0x1_0000 + self.low as u32
    }

    /// The index this identifier stands for.
    pub fn index(self) -> (index: usize)
        ensures
            index == self.spec_raw(),
    {
        self.raw() as usize
    }
}

/// An index below the limit has a base.
pub broadcast proof fn lemma_base_at(raw: u32)
    requires
        raw < BASE_LIMIT,
    ensures
        (#[trigger] BaseId::spec_new(raw)).spec_raw() == raw,
{
    let top = (raw / 0x100_0000) as u8;
    assert(raw / 0x100_0000 < 255);
    ShortByte::lemma_value_of(top);
    assert(raw == (raw / 0x100_0000) * 0x100_0000 + (raw / 0x1_0000 % 0x100) * 0x1_0000 + raw
        % 0x1_0000);
}

/// A base has one index, which is below the limit.
pub broadcast proof fn lemma_base_raw(id: BaseId)
    ensures
        #[trigger] id.spec_raw() < BASE_LIMIT,
        BaseId::spec_new(id.spec_raw()) == id,
{
    id.top.lemma_of_value();
    let raw = id.spec_raw();
    assert(raw == id.top.value() * 0x100_0000 + id.mid * 0x1_0000 + id.low);
    assert(raw / 0x100_0000 == id.top.value());
    assert(raw / 0x1_0000 % 0x100 == id.mid);
    assert(raw % 0x1_0000 == id.low);
}

pub broadcast group group_bases {
    lemma_base_at,
    lemma_base_raw,
}

} // verus!
