use vstd::prelude::*;
use crate::layout::{Key, KeyCode, Layer, Layout, NUM_KEYS, layers_wf};

verus! {

/// Bytes read as a big-endian number.
pub open spec fn pack(s: Seq<u8>) -> int
    decreases s.len(),
{
    if s.len() == 0 {
        0
    } else {
        pack(s.drop_last()) * 256 + s.last()
    }
}

/// ASCII decimal digits read as a number.
pub open spec fn digits_value(s: Seq<u8>) -> int
    decreases s.len(),
{
    if s.len() == 0 {
        0
    } else {
        digits_value(s.drop_last()) * 10 + (s.last() - 48)
    }
}

pub open spec fn all_digits(s: Seq<u8>) -> bool {
    forall|i: int| 0 <= i < s.len() ==> 48 <= #[trigger] s[i] <= 57
}

/// `KC_`
pub open spec fn kc_prefix() -> Seq<u8> {
    seq![75u8, 67u8, 95u8]
}

/// `LSFT(`
pub open spec fn lsft_open() -> Seq<u8> {
    seq![76u8, 83u8, 70u8, 84u8, 40u8]
}

/// `OSL(`
pub open spec fn osl_open() -> Seq<u8> {
    seq![79u8, 83u8, 76u8, 40u8]
}

/// `KC_NO`
pub open spec fn kc_no() -> Seq<u8> {
    seq![75u8, 67u8, 95u8, 78u8, 79u8]
}

/// `OSM(MOD_LSFT)`
pub open spec fn osm_lsft() -> Seq<u8> {
    seq![79u8, 83u8, 77u8, 40u8, 77u8, 79u8, 68u8, 95u8, 76u8, 83u8, 70u8, 84u8, 41u8]
}

/// `)`
pub open spec fn close_paren() -> Seq<u8> {
    seq![41u8]
}

/// The token of a key code: `KC_` and its suffix.
pub open spec fn kc_name(kc: KeyCode) -> Seq<u8> {
    kc_prefix() + kc_suffix(kc)
}

/// The bytes after `KC_` in the token of each key code.
pub open spec fn kc_suffix(kc: KeyCode) -> Seq<u8> {
    match kc {
        KeyCode::A => seq![65u8],
        KeyCode::B => seq![66u8],
        KeyCode::C => seq![67u8],
        KeyCode::D => seq![68u8],
        KeyCode::E => seq![69u8],
        KeyCode::F => seq![70u8],
        KeyCode::G => seq![71u8],
        KeyCode::H => seq![72u8],
        KeyCode::I => seq![73u8],
        KeyCode::J => seq![74u8],
        KeyCode::K => seq![75u8],
        KeyCode::L => seq![76u8],
        KeyCode::M => seq![77u8],
        KeyCode::N => seq![78u8],
        KeyCode::O => seq![79u8],
        KeyCode::P => seq![80u8],
        KeyCode::Q => seq![81u8],
        KeyCode::R => seq![82u8],
        KeyCode::S => seq![83u8],
        KeyCode::T => seq![84u8],
        KeyCode::U => seq![85u8],
        KeyCode::V => seq![86u8],
        KeyCode::W => seq![87u8],
        KeyCode::X => seq![88u8],
        KeyCode::Y => seq![89u8],
        KeyCode::Z => seq![90u8],
        KeyCode::Digit0 => seq![48u8],
        KeyCode::Digit1 => seq![49u8],
        KeyCode::Digit2 => seq![50u8],
        KeyCode::Digit3 => seq![51u8],
        KeyCode::Digit4 => seq![52u8],
        KeyCode::Digit5 => seq![53u8],
        KeyCode::Digit6 => seq![54u8],
        KeyCode::Digit7 => seq![55u8],
        KeyCode::Digit8 => seq![56u8],
        KeyCode::Digit9 => seq![57u8],
        KeyCode::Comma => seq![67u8, 79u8, 77u8, 77u8],
        KeyCode::Dot => seq![68u8, 79u8, 84u8],
        KeyCode::Apostrophe => seq![81u8, 85u8, 79u8, 84u8],
        KeyCode::Semicolon => seq![83u8, 67u8, 76u8, 78u8],
        KeyCode::Backslash => seq![78u8, 85u8, 66u8, 83u8],
        KeyCode::Slash => seq![83u8, 76u8, 83u8, 72u8],
        KeyCode::LeftSquareBracket => seq![76u8, 66u8, 82u8, 67u8],
        KeyCode::RightSquareBracket => seq![82u8, 66u8, 82u8, 67u8],
        KeyCode::Hash => seq![78u8, 85u8, 72u8, 83u8],
        KeyCode::Grave => seq![71u8, 82u8, 86u8],
        KeyCode::Minus => seq![77u8, 73u8, 78u8, 83u8],
        KeyCode::Equals => seq![69u8, 81u8, 76u8],
        KeyCode::Space => seq![83u8, 80u8, 67u8],
        KeyCode::Enter => seq![69u8, 78u8, 84u8],
        KeyCode::Tab => seq![84u8, 65u8, 66u8],
    }
}

/// The suffix of each key code read as a big-endian number.
pub open spec fn kc_code(kc: KeyCode) -> u32 {
    match kc {
        KeyCode::A => 0x41,
        KeyCode::B => 0x42,
        KeyCode::C => 0x43,
        KeyCode::D => 0x44,
        KeyCode::E => 0x45,
        KeyCode::F => 0x46,
        KeyCode::G => 0x47,
        KeyCode::H => 0x48,
        KeyCode::I => 0x49,
        KeyCode::J => 0x4A,
        KeyCode::K => 0x4B,
        KeyCode::L => 0x4C,
        KeyCode::M => 0x4D,
        KeyCode::N => 0x4E,
        KeyCode::O => 0x4F,
        KeyCode::P => 0x50,
        KeyCode::Q => 0x51,
        KeyCode::R => 0x52,
        KeyCode::S => 0x53,
        KeyCode::T => 0x54,
        KeyCode::U => 0x55,
        KeyCode::V => 0x56,
        KeyCode::W => 0x57,
        KeyCode::X => 0x58,
        KeyCode::Y => 0x59,
        KeyCode::Z => 0x5A,
        KeyCode::Digit0 => 0x30,
        KeyCode::Digit1 => 0x31,
        KeyCode::Digit2 => 0x32,
        KeyCode::Digit3 => 0x33,
        KeyCode::Digit4 => 0x34,
        KeyCode::Digit5 => 0x35,
        KeyCode::Digit6 => 0x36,
        KeyCode::Digit7 => 0x37,
        KeyCode::Digit8 => 0x38,
        KeyCode::Digit9 => 0x39,
        KeyCode::Comma => 0x434F4D4D,
        KeyCode::Dot => 0x444F54,
        KeyCode::Apostrophe => 0x51554F54,
        KeyCode::Semicolon => 0x53434C4E,
        KeyCode::Backslash => 0x4E554253,
        KeyCode::Slash => 0x534C5348,
        KeyCode::LeftSquareBracket => 0x4C425243,
        KeyCode::RightSquareBracket => 0x52425243,
        KeyCode::Hash => 0x4E554853,
        KeyCode::Grave => 0x475256,
        KeyCode::Minus => 0x4D494E53,
        KeyCode::Equals => 0x45514C,
        KeyCode::Space => 0x535043,
        KeyCode::Enter => 0x454E54,
        KeyCode::Tab => 0x544142,
    }
}

/// The key code whose suffix reads as `c`, if any.
pub open spec fn code_kc(c: u32) -> Option<KeyCode> {
    if c == 0x41 {
        Some(KeyCode::A)
    } else if c == 0x42 {
        Some(KeyCode::B)
    } else if c == 0x43 {
        Some(KeyCode::C)
    } else if c == 0x44 {
        Some(KeyCode::D)
    } else if c == 0x45 {
        Some(KeyCode::E)
    } else if c == 0x46 {
        Some(KeyCode::F)
    } else if c == 0x47 {
        Some(KeyCode::G)
    } else if c == 0x48 {
        Some(KeyCode::H)
    } else if c == 0x49 {
        Some(KeyCode::I)
    } else if c == 0x4A {
        Some(KeyCode::J)
    } else if c == 0x4B {
        Some(KeyCode::K)
    } else if c == 0x4C {
        Some(KeyCode::L)
    } else if c == 0x4D {
        Some(KeyCode::M)
    } else if c == 0x4E {
        Some(KeyCode::N)
    } else if c == 0x4F {
        Some(KeyCode::O)
    } else if c == 0x50 {
        Some(KeyCode::P)
    } else if c == 0x51 {
        Some(KeyCode::Q)
    } else if c == 0x52 {
        Some(KeyCode::R)
    } else if c == 0x53 {
        Some(KeyCode::S)
    } else if c == 0x54 {
        Some(KeyCode::T)
    } else if c == 0x55 {
        Some(KeyCode::U)
    } else if c == 0x56 {
        Some(KeyCode::V)
    } else if c == 0x57 {
        Some(KeyCode::W)
    } else if c == 0x58 {
        Some(KeyCode::X)
    } else if c == 0x59 {
        Some(KeyCode::Y)
    } else if c == 0x5A {
        Some(KeyCode::Z)
    } else if c == 0x30 {
        Some(KeyCode::Digit0)
    } else if c == 0x31 {
        Some(KeyCode::Digit1)
    } else if c == 0x32 {
        Some(KeyCode::Digit2)
    } else if c == 0x33 {
        Some(KeyCode::Digit3)
    } else if c == 0x34 {
        Some(KeyCode::Digit4)
    } else if c == 0x35 {
        Some(KeyCode::Digit5)
    } else if c == 0x36 {
        Some(KeyCode::Digit6)
    } else if c == 0x37 {
        Some(KeyCode::Digit7)
    } else if c == 0x38 {
        Some(KeyCode::Digit8)
    } else if c == 0x39 {
        Some(KeyCode::Digit9)
    } else if c == 0x434F4D4D {
        Some(KeyCode::Comma)
    } else if c == 0x444F54 {
        Some(KeyCode::Dot)
    } else if c == 0x51554F54 {
        Some(KeyCode::Apostrophe)
    } else if c == 0x53434C4E {
        Some(KeyCode::Semicolon)
    } else if c == 0x4E554253 {
        Some(KeyCode::Backslash)
    } else if c == 0x534C5348 {
        Some(KeyCode::Slash)
    } else if c == 0x4C425243 {
        Some(KeyCode::LeftSquareBracket)
    } else if c == 0x52425243 {
        Some(KeyCode::RightSquareBracket)
    } else if c == 0x4E554853 {
        Some(KeyCode::Hash)
    } else if c == 0x475256 {
        Some(KeyCode::Grave)
    } else if c == 0x4D494E53 {
        Some(KeyCode::Minus)
    } else if c == 0x45514C {
        Some(KeyCode::Equals)
    } else if c == 0x535043 {
        Some(KeyCode::Space)
    } else if c == 0x454E54 {
        Some(KeyCode::Enter)
    } else if c == 0x544142 {
        Some(KeyCode::Tab)
    } else {
        None
    }
}

fn code_to_keycode(c: u32) -> (r: Option<KeyCode>)
    ensures
        r == code_kc(c),
{
    if c == 0x41 {
        Some(KeyCode::A)
    } else if c == 0x42 {
        Some(KeyCode::B)
    } else if c == 0x43 {
        Some(KeyCode::C)
    } else if c == 0x44 {
        Some(KeyCode::D)
    } else if c == 0x45 {
        Some(KeyCode::E)
    } else if c == 0x46 {
        Some(KeyCode::F)
    } else if c == 0x47 {
        Some(KeyCode::G)
    } else if c == 0x48 {
        Some(KeyCode::H)
    } else if c == 0x49 {
        Some(KeyCode::I)
    } else if c == 0x4A {
        Some(KeyCode::J)
    } else if c == 0x4B {
        Some(KeyCode::K)
    } else if c == 0x4C {
        Some(KeyCode::L)
    } else if c == 0x4D {
        Some(KeyCode::M)
    } else if c == 0x4E {
        Some(KeyCode::N)
    } else if c == 0x4F {
        Some(KeyCode::O)
    } else if c == 0x50 {
        Some(KeyCode::P)
    } else if c == 0x51 {
        Some(KeyCode::Q)
    } else if c == 0x52 {
        Some(KeyCode::R)
    } else if c == 0x53 {
        Some(KeyCode::S)
    } else if c == 0x54 {
        Some(KeyCode::T)
    } else if c == 0x55 {
        Some(KeyCode::U)
    } else if c == 0x56 {
        Some(KeyCode::V)
    } else if c == 0x57 {
        Some(KeyCode::W)
    } else if c == 0x58 {
        Some(KeyCode::X)
    } else if c == 0x59 {
        Some(KeyCode::Y)
    } else if c == 0x5A {
        Some(KeyCode::Z)
    } else if c == 0x30 {
        Some(KeyCode::Digit0)
    } else if c == 0x31 {
        Some(KeyCode::Digit1)
    } else if c == 0x32 {
        Some(KeyCode::Digit2)
    } else if c == 0x33 {
        Some(KeyCode::Digit3)
    } else if c == 0x34 {
        Some(KeyCode::Digit4)
    } else if c == 0x35 {
        Some(KeyCode::Digit5)
    } else if c == 0x36 {
        Some(KeyCode::Digit6)
    } else if c == 0x37 {
        Some(KeyCode::Digit7)
    } else if c == 0x38 {
        Some(KeyCode::Digit8)
    } else if c == 0x39 {
        Some(KeyCode::Digit9)
    } else if c == 0x434F4D4D {
        Some(KeyCode::Comma)
    } else if c == 0x444F54 {
        Some(KeyCode::Dot)
    } else if c == 0x51554F54 {
        Some(KeyCode::Apostrophe)
    } else if c == 0x53434C4E {
        Some(KeyCode::Semicolon)
    } else if c == 0x4E554253 {
        Some(KeyCode::Backslash)
    } else if c == 0x534C5348 {
        Some(KeyCode::Slash)
    } else if c == 0x4C425243 {
        Some(KeyCode::LeftSquareBracket)
    } else if c == 0x52425243 {
        Some(KeyCode::RightSquareBracket)
    } else if c == 0x4E554853 {
        Some(KeyCode::Hash)
    } else if c == 0x475256 {
        Some(KeyCode::Grave)
    } else if c == 0x4D494E53 {
        Some(KeyCode::Minus)
    } else if c == 0x45514C {
        Some(KeyCode::Equals)
    } else if c == 0x535043 {
        Some(KeyCode::Space)
    } else if c == 0x454E54 {
        Some(KeyCode::Enter)
    } else if c == 0x544142 {
        Some(KeyCode::Tab)
    } else {
        None
    }
}

impl KeyCode {
    /// The firmware token of this key code.
    pub fn token(self) -> (r: Vec<u8>)
        ensures
            r@ == kc_name(self),
    {
        match self {
            KeyCode::A => {
                let r = vec![75u8, 67u8, 95u8, 65u8];
                assert(r@ =~= kc_name(self));
                r
            },
            KeyCode::B => {
                let r = vec![75u8, 67u8, 95u8, 66u8];
                assert(r@ =~= kc_name(self));
                r
            },
            KeyCode::C => {
                let r = vec![75u8, 67u8, 95u8, 67u8];
                assert(r@ =~= kc_name(self));
                r
            },
            KeyCode::D => {
                let r = vec![75u8, 67u8, 95u8, 68u8];
                assert(r@ =~= kc_name(self));
                r
            },
            KeyCode::E => {
                let r = vec![75u8, 67u8, 95u8, 69u8];
                assert(r@ =~= kc_name(self));
                r
            },
            KeyCode::F => {
                let r = vec![75u8, 67u8, 95u8, 70u8];
                assert(r@ =~= kc_name(self));
                r
            },
            KeyCode::G => {
                let r = vec![75u8, 67u8, 95u8, 71u8];
                assert(r@ =~= kc_name(self));
                r
            },
            KeyCode::H => {
                let r = vec![75u8, 67u8, 95u8, 72u8];
                assert(r@ =~= kc_name(self));
                r
            },
            KeyCode::I => {
                let r = vec![75u8, 67u8, 95u8, 73u8];
                assert(r@ =~= kc_name(self));
                r
            },
            KeyCode::J => {
                let r = vec![75u8, 67u8, 95u8, 74u8];
                assert(r@ =~= kc_name(self));
                r
            },
            KeyCode::K => {
                let r = vec![75u8, 67u8, 95u8, 75u8];
                assert(r@ =~= kc_name(self));
                r
            },
            KeyCode::L => {
                let r = vec![75u8, 67u8, 95u8, 76u8];
                assert(r@ =~= kc_name(self));
                r
            },
            KeyCode::M => {
                let r = vec![75u8, 67u8, 95u8, 77u8];
                assert(r@ =~= kc_name(self));
                r
            },
            KeyCode::N => {
                let r = vec![75u8, 67u8, 95u8, 78u8];
                assert(r@ =~= kc_name(self));
                r
            },
            KeyCode::O => {
                let r = vec![75u8, 67u8, 95u8, 79u8];
                assert(r@ =~= kc_name(self));
                r
            },
            KeyCode::P => {
                let r = vec![75u8, 67u8, 95u8, 80u8];
                assert(r@ =~= kc_name(self));
                r
            },
            KeyCode::Q => {
                let r = vec![75u8, 67u8, 95u8, 81u8];
                assert(r@ =~= kc_name(self));
                r
            },
            KeyCode::R => {
                let r = vec![75u8, 67u8, 95u8, 82u8];
                assert(r@ =~= kc_name(self));
                r
            },
            KeyCode::S => {
                let r = vec![75u8, 67u8, 95u8, 83u8];
                assert(r@ =~= kc_name(self));
                r
            },
            KeyCode::T => {
                let r = vec![75u8, 67u8, 95u8, 84u8];
                assert(r@ =~= kc_name(self));
                r
            },
            KeyCode::U => {
                let r = vec![75u8, 67u8, 95u8, 85u8];
                assert(r@ =~= kc_name(self));
                r
            },
            KeyCode::V => {
                let r = vec![75u8, 67u8, 95u8, 86u8];
                assert(r@ =~= kc_name(self));
                r
            },
            KeyCode::W => {
                let r = vec![75u8, 67u8, 95u8, 87u8];
                assert(r@ =~= kc_name(self));
                r
            },
            KeyCode::X => {
                let r = vec![75u8, 67u8, 95u8, 88u8];
                assert(r@ =~= kc_name(self));
                r
            },
            KeyCode::Y => {
                let r = vec![75u8, 67u8, 95u8, 89u8];
                assert(r@ =~= kc_name(self));
                r
            },
            KeyCode::Z => {
                let r = vec![75u8, 67u8, 95u8, 90u8];
                assert(r@ =~= kc_name(self));
                r
            },
            KeyCode::Digit0 => {
                let r = vec![75u8, 67u8, 95u8, 48u8];
                assert(r@ =~= kc_name(self));
                r
            },
            KeyCode::Digit1 => {
                let r = vec![75u8, 67u8, 95u8, 49u8];
                assert(r@ =~= kc_name(self));
                r
            },
            KeyCode::Digit2 => {
                let r = vec![75u8, 67u8, 95u8, 50u8];
                assert(r@ =~= kc_name(self));
                r
            },
            KeyCode::Digit3 => {
                let r = vec![75u8, 67u8, 95u8, 51u8];
                assert(r@ =~= kc_name(self));
                r
            },
            KeyCode::Digit4 => {
                let r = vec![75u8, 67u8, 95u8, 52u8];
                assert(r@ =~= kc_name(self));
                r
            },
            KeyCode::Digit5 => {
                let r = vec![75u8, 67u8, 95u8, 53u8];
                assert(r@ =~= kc_name(self));
                r
            },
            KeyCode::Digit6 => {
                let r = vec![75u8, 67u8, 95u8, 54u8];
                assert(r@ =~= kc_name(self));
                r
            },
            KeyCode::Digit7 => {
                let r = vec![75u8, 67u8, 95u8, 55u8];
                assert(r@ =~= kc_name(self));
                r
            },
            KeyCode::Digit8 => {
                let r = vec![75u8, 67u8, 95u8, 56u8];
                assert(r@ =~= kc_name(self));
                r
            },
            KeyCode::Digit9 => {
                let r = vec![75u8, 67u8, 95u8, 57u8];
                assert(r@ =~= kc_name(self));
                r
            },
            KeyCode::Comma => {
                let r = vec![75u8, 67u8, 95u8, 67u8, 79u8, 77u8, 77u8];
                assert(r@ =~= kc_name(self));
                r
            },
            KeyCode::Dot => {
                let r = vec![75u8, 67u8, 95u8, 68u8, 79u8, 84u8];
                assert(r@ =~= kc_name(self));
                r
            },
            KeyCode::Apostrophe => {
                let r = vec![75u8, 67u8, 95u8, 81u8, 85u8, 79u8, 84u8];
                assert(r@ =~= kc_name(self));
                r
            },
            KeyCode::Semicolon => {
                let r = vec![75u8, 67u8, 95u8, 83u8, 67u8, 76u8, 78u8];
                assert(r@ =~= kc_name(self));
                r
            },
            KeyCode::Backslash => {
                let r = vec![75u8, 67u8, 95u8, 78u8, 85u8, 66u8, 83u8];
                assert(r@ =~= kc_name(self));
                r
            },
            KeyCode::Slash => {
                let r = vec![75u8, 67u8, 95u8, 83u8, 76u8, 83u8, 72u8];
                assert(r@ =~= kc_name(self));
                r
            },
            KeyCode::LeftSquareBracket => {
                let r = vec![75u8, 67u8, 95u8, 76u8, 66u8, 82u8, 67u8];
                assert(r@ =~= kc_name(self));
                r
            },
            KeyCode::RightSquareBracket => {
                let r = vec![75u8, 67u8, 95u8, 82u8, 66u8, 82u8, 67u8];
                assert(r@ =~= kc_name(self));
                r
            },
            KeyCode::Hash => {
                let r = vec![75u8, 67u8, 95u8, 78u8, 85u8, 72u8, 83u8];
                assert(r@ =~= kc_name(self));
                r
            },
            KeyCode::Grave => {
                let r = vec![75u8, 67u8, 95u8, 71u8, 82u8, 86u8];
                assert(r@ =~= kc_name(self));
                r
            },
            KeyCode::Minus => {
                let r = vec![75u8, 67u8, 95u8, 77u8, 73u8, 78u8, 83u8];
                assert(r@ =~= kc_name(self));
                r
            },
            KeyCode::Equals => {
                let r = vec![75u8, 67u8, 95u8, 69u8, 81u8, 76u8];
                assert(r@ =~= kc_name(self));
                r
            },
            KeyCode::Space => {
                let r = vec![75u8, 67u8, 95u8, 83u8, 80u8, 67u8];
                assert(r@ =~= kc_name(self));
                r
            },
            KeyCode::Enter => {
                let r = vec![75u8, 67u8, 95u8, 69u8, 78u8, 84u8];
                assert(r@ =~= kc_name(self));
                r
            },
            KeyCode::Tab => {
                let r = vec![75u8, 67u8, 95u8, 84u8, 65u8, 66u8];
                assert(r@ =~= kc_name(self));
                r
            },
        }
    }
}

/// Suffixes are one to four bytes and read back as the key code's number.
pub proof fn lemma_kc_code(kc: KeyCode)
    ensures
        1 <= kc_suffix(kc).len() <= 4,
        pack(kc_suffix(kc)) == kc_code(kc) as int,
        code_kc(kc_code(kc)) == Some(kc),
{
    reveal_with_fuel(pack, 5);
}

/// The key code whose token is `t`, if any.
pub open spec fn decode_keycode(t: Seq<u8>) -> Option<KeyCode> {
    if 4 <= t.len() <= 7 && t.take(3) == kc_prefix() {
        match code_kc(pack(t.skip(3)) as u32) {
            Some(kc) => if kc_name(kc) == t {
                Some(kc)
            } else {
                None
            },
            None => None,
        }
    } else {
        None
    }
}

/// The canonical decimal digits of `n`.
pub open spec fn decimal(n: u8) -> Seq<u8> {
    if n < 10 {
        seq![(48 + n) as u8]
    } else if n < 100 {
        seq![(48 + n / 10) as u8, (48 + n % 10) as u8]
    } else {
        seq![(48 + n / 100) as u8, (48 + (n / 10) % 10) as u8, (48 + n % 10) as u8]
    }
}

/// The firmware token of a key.
pub open spec fn key_token(k: Key) -> Seq<u8> {
    match k {
        Key::Typing(kc) => kc_name(kc),
        Key::Shifted(kc) => lsft_open() + kc_name(kc) + close_paren(),
        Key::Empty => kc_no(),
        Key::Shift => osm_lsft(),
        Key::Layer(n) => osl_open() + decimal(n) + close_paren(),
    }
}

/// The key a token stands for: `KC_<name>`, `LSFT(KC_<name>)`, `KC_NO`, `OSM(MOD_LSFT)`, or
/// `OSL(<n>)` with one to three decimal digits worth at most 255.
pub open spec fn decode_key(t: Seq<u8>) -> Option<Key> {
    match decode_keycode(t) {
        Some(kc) => Some(Key::Typing(kc)),
        None => if t == kc_no() {
            Some(Key::Empty)
        } else if t == osm_lsft() {
            Some(Key::Shift)
        } else if t.len() >= 6 && t.take(5) == lsft_open() && t.last() == 41 {
            match decode_keycode(t.subrange(5, t.len() - 1)) {
                Some(kc) => Some(Key::Shifted(kc)),
                None => None,
            }
        } else if 6 <= t.len() <= 8 && t.take(4) == osl_open() && t.last() == 41 && all_digits(
            t.subrange(4, t.len() - 1),
        ) && digits_value(t.subrange(4, t.len() - 1)) <= 255 {
            Some(Key::Layer(digits_value(t.subrange(4, t.len() - 1)) as u8))
        } else {
            None
        },
    }
}

proof fn lemma_decode_kc_name(kc: KeyCode)
    ensures
        decode_keycode(kc_name(kc)) == Some(kc),
        4 <= kc_name(kc).len() <= 7,
{
    lemma_kc_code(kc);
    let t = kc_name(kc);
    assert(t.take(3) =~= kc_prefix());
    assert(t.skip(3) =~= kc_suffix(kc));
}

proof fn lemma_decimal(n: u8)
    ensures
        1 <= decimal(n).len() <= 3,
        all_digits(decimal(n)),
        digits_value(decimal(n)) == n,
{
    reveal_with_fuel(digits_value, 4);
    let d = decimal(n);
    if n >= 100 {
        assert(d.drop_last().drop_last() =~= seq![(48 + n / 100) as u8]);
        assert(d.drop_last() =~= seq![(48 + n / 100) as u8, (48 + (n / 10) % 10) as u8]);
        assert(d.drop_last().drop_last().drop_last() =~= Seq::<u8>::empty());
    } else if n >= 10 {
        assert(d.drop_last() =~= seq![(48 + n / 10) as u8]);
        assert(d.drop_last().drop_last() =~= Seq::<u8>::empty());
    } else {
        assert(d.drop_last() =~= Seq::<u8>::empty());
    }
}

/// Decoding the token of any key gives the key back.
pub proof fn lemma_key_round_trip(k: Key)
    ensures
        decode_key(key_token(k)) == Some(k),
{
    let t = key_token(k);
    match k {
        Key::Typing(kc) => {
            lemma_decode_kc_name(kc);
        },
        Key::Shifted(kc) => {
            lemma_decode_kc_name(kc);
            let name = kc_name(kc);
            assert(t.len() == 6 + name.len());
            assert(t[0] == 76u8);
            assert(t != kc_no()) by {
                assert(t[0] != kc_no()[0]);
            }
            assert(t != osm_lsft()) by {
                assert(t[0] != osm_lsft()[0]);
            }
            assert(t.take(5) =~= lsft_open());
            assert(t.subrange(5, t.len() - 1) =~= name);
        },
        Key::Empty => {
            reveal_with_fuel(pack, 3);
            assert(t.take(3) =~= kc_prefix());
            assert(t.skip(3) =~= seq![78u8, 79u8]);
        },
        Key::Shift => {
            assert(t.len() == 13);
            assert(t != kc_no());
        },
        Key::Layer(n) => {
            lemma_decimal(n);
            let d = decimal(n);
            assert(t[0] == 79u8);
            assert(t.take(3) != kc_prefix()) by {
                assert(t.take(3)[0] != kc_prefix()[0]);
            }
            assert(t != kc_no()) by {
                assert(t[0] != kc_no()[0]);
            }
            assert(t != osm_lsft()) by {
                assert(t.len() != osm_lsft().len());
            }
            assert(t.take(5) != lsft_open()) by {
                assert(t.take(5)[0] != lsft_open()[0]);
            }
            assert(t.take(4) =~= osl_open());
            assert(t.subrange(4, t.len() - 1) =~= d);
        },
    }
}

/// Why a layout could not be decoded.
#[derive(Debug, Clone, PartialEq, Eq)]
pub enum ParseError {
    /// A token that names no key.
    UnknownValue(Vec<u8>),
    /// A required field is absent or does not hold the expected text.
    MissingValue(Vec<u8>),
    WrongType { expected: JsonKind, found: JsonKind },
    WrongLength { expected: usize, found: usize },
    WrongValue { expected: Vec<u8>, found: Vec<u8> },
}

/// The kinds of JSON value.
#[derive(Debug, Clone, Copy, PartialEq, Eq, Structural)]
pub enum JsonKind {
    Null,
    Bool,
    Number,
    String,
    Array,
    Object,
}

fn bytes_eq(a: &[u8], b: &[u8]) -> (r: bool)
    ensures
        r == (a@ == b@),
{
    if a.len() != b.len() {
        return false;
    }
    let mut i: usize = 0;
    while i < a.len()
        invariant
            a@.len() == b@.len(),
            0 <= i <= a@.len(),
            forall|j: int| 0 <= j < i ==> a@[j] == b@[j],
        decreases a@.len() - i,
    {
        if a[i] != b[i] {
            return false;
        }
        i += 1;
    }
    assert(a@ =~= b@);
    true
}

fn starts_with(t: &[u8], prefix: &[u8]) -> (r: bool)
    ensures
        r == (t@.len() >= prefix@.len() && t@.take(prefix@.len() as int) == prefix@),
{
    if t.len() < prefix.len() {
        return false;
    }
    let mut i: usize = 0;
    while i < prefix.len()
        invariant
            t@.len() >= prefix@.len(),
            0 <= i <= prefix@.len(),
            forall|j: int| 0 <= j < i ==> t@[j] == prefix@[j],
        decreases prefix@.len() - i,
    {
        if t[i] != prefix[i] {
            assert(t@.take(prefix@.len() as int)[i as int] != prefix@[i as int]);
            return false;
        }
        i += 1;
    }
    assert(t@.take(prefix@.len() as int) =~= prefix@);
    true
}

proof fn lemma_pack_bound(s: Seq<u8>)
    ensures
        s.len() <= 4 ==> 0 <= pack(s) < if s.len() == 0 { 1int } else if s.len() == 1 { 256int } else if s.len()
            == 2 { 65536int } else if s.len() == 3 { 16777216int } else { 4294967296int },
    decreases s.len(),
{
    if s.len() > 0 {
        lemma_pack_bound(s.drop_last());
    }
}

/// The key code whose token is `t`, if any.
pub fn parse_keycode(t: &[u8]) -> (r: Option<KeyCode>)
    ensures
        r == decode_keycode(t@),
{
    if t.len() < 4 || t.len() > 7 {
        return None;
    }
    let prefix = vec![75u8, 67u8, 95u8];
    assert(prefix@ =~= kc_prefix());
    if !starts_with(t, prefix.as_slice()) {
        return None;
    }
    let mut v: u32 = 0;
    let mut i: usize = 3;
    while i < t.len()
        invariant
            4 <= t@.len() <= 7,
            3 <= i <= t@.len(),
            v as int == pack(t@.subrange(3, i as int)),
        decreases t@.len() - i,
    {
        proof {
            lemma_pack_bound(t@.subrange(3, i as int + 1));
            assert(t@.subrange(3, i as int + 1).drop_last() =~= t@.subrange(3, i as int));
        }
        v = v * 256 + t[i] as u32;
        i += 1;
    }
    assert(t@.subrange(3, i as int) =~= t@.skip(3));
    match code_to_keycode(v) {
        Some(kc) => {
            let name = kc.token();
            if bytes_eq(name.as_slice(), t) {
                Some(kc)
            } else {
                None
            }
        },
        None => None,
    }
}

proof fn lemma_digits_bound(s: Seq<u8>)
    requires
        all_digits(s),
    ensures
        0 <= digits_value(s),
        s.len() <= 3 ==> digits_value(s) < if s.len() == 0 { 1int } else if s.len() == 1 { 10int } else if s.len()
            == 2 { 100int } else { 1000int },
    decreases s.len(),
{
    if s.len() > 0 {
        assert(all_digits(s.drop_last()));
        assert(48 <= s[s.len() - 1] <= 57);
        lemma_digits_bound(s.drop_last());
    }
}

fn slice_range(t: &[u8], start: usize, end: usize) -> (r: Vec<u8>)
    requires
        start <= end <= t@.len(),
    ensures
        r@ == t@.subrange(start as int, end as int),
{
    let mut out: Vec<u8> = Vec::new();
    let mut i: usize = start;
    while i < end
        invariant
            start <= i <= end <= t@.len(),
            out@ == t@.subrange(start as int, i as int),
        decreases end - i,
    {
        out.push(t[i]);
        i += 1;
        assert(out@ =~= t@.subrange(start as int, i as int));
    }
    out
}

/// The key a firmware token stands for.
pub fn parse_key(t: &[u8]) -> (r: Option<Key>)
    ensures
        r == decode_key(t@),
{
    if let Some(kc) = parse_keycode(t) {
        return Some(Key::Typing(kc));
    }
    let no = vec![75u8, 67u8, 95u8, 78u8, 79u8];
    assert(no@ =~= kc_no());
    if bytes_eq(t, no.as_slice()) {
        return Some(Key::Empty);
    }
    let osm = vec![79u8, 83u8, 77u8, 40u8, 77u8, 79u8, 68u8, 95u8, 76u8, 83u8, 70u8, 84u8, 41u8];
    assert(osm@ =~= osm_lsft());
    if bytes_eq(t, osm.as_slice()) {
        return Some(Key::Shift);
    }
    let n = t.len();
    let lsft = vec![76u8, 83u8, 70u8, 84u8, 40u8];
    assert(lsft@ =~= lsft_open());
    if n >= 6 && starts_with(t, lsft.as_slice()) && t[n - 1] == 41 {
        let inner = slice_range(t, 5, n - 1);
        return match parse_keycode(inner.as_slice()) {
            Some(kc) => Some(Key::Shifted(kc)),
            None => None,
        };
    }
    let osl = vec![79u8, 83u8, 76u8, 40u8];
    assert(osl@ =~= osl_open());
    if 6 <= n && n <= 8 && starts_with(t, osl.as_slice()) && t[n - 1] == 41 {
        let ghost ds = t@.subrange(4, n as int - 1);
        let mut v: u32 = 0;
        let mut i: usize = 4;
        assert(t@.subrange(4, 4) =~= Seq::<u8>::empty());
        while i < n - 1
            invariant
                decode_keycode(t@) is None,
                t@ != kc_no(),
                t@ != osm_lsft(),
                !(t@.len() >= 6 && t@.take(5) == lsft_open() && t@.last() == 41),
                t@.take(4) == osl_open(),
                t@.last() == 41,
                6 <= n <= 8,
                n == t@.len(),
                ds == t@.subrange(4, n as int - 1),
                4 <= i <= n - 1,
                all_digits(t@.subrange(4, i as int)),
                v as int == digits_value(t@.subrange(4, i as int)),
            decreases n - 1 - i,
        {
            let b = t[i];
            if b < 48 || b > 57 {
                assert(ds[i - 4] == b);
                assert(!all_digits(ds));
                return None;
            }
            proof {
                lemma_digits_bound(t@.subrange(4, i as int));
                assert(t@.subrange(4, i as int + 1).drop_last() =~= t@.subrange(4, i as int));
                assert forall|j: int| 0 <= j < i + 1 - 4 implies 48 <= #[trigger] t@.subrange(4, i as int + 1)[j] <= 57 by {
                    if j < i - 4 {
                        assert(t@.subrange(4, i as int + 1)[j] == t@.subrange(4, i as int)[j]);
                    }
                }
            }
            v = v * 10 + (b - 48) as u32;
            i += 1;
        }
        assert(t@.subrange(4, i as int) =~= ds);
        if v <= 255 {
            return Some(Key::Layer(v as u8));
        }
        return None;
    }
    None
}

fn decimal_digits(n: u8) -> (r: Vec<u8>)
    ensures
        r@ == decimal(n),
{
    let r = if n < 10 {
        vec![48 + n]
    } else if n < 100 {
        vec![48 + n / 10, 48 + n % 10]
    } else {
        vec![48 + n / 100, 48 + (n / 10) % 10, 48 + n % 10]
    };
    assert(r@ =~= decimal(n));
    r
}

fn append(out: &mut Vec<u8>, b: &[u8])
    ensures
        final(out)@ == old(out)@ + b@,
{
    let mut i: usize = 0;
    while i < b.len()
        invariant
            0 <= i <= b@.len(),
            out@ == old(out)@ + b@.take(i as int),
        decreases b@.len() - i,
    {
        out.push(b[i]);
        i += 1;
        assert(out@ =~= old(out)@ + b@.take(i as int));
    }
    assert(b@.take(i as int) =~= b@);
}

/// The firmware token of a key.
pub fn key_to_token(k: Key) -> (r: Vec<u8>)
    ensures
        r@ == key_token(k),
{
    let r = match k {
        Key::Typing(kc) => kc.token(),
        Key::Shifted(kc) => {
            let mut r = vec![76u8, 83u8, 70u8, 84u8, 40u8];
            append(&mut r, kc.token().as_slice());
            r.push(41);
            r
        },
        Key::Empty => vec![75u8, 67u8, 95u8, 78u8, 79u8],
        Key::Shift => vec![79u8, 83u8, 77u8, 40u8, 77u8, 79u8, 68u8, 95u8, 76u8, 83u8, 70u8, 84u8, 41u8],
        Key::Layer(n) => {
            let mut r = vec![79u8, 83u8, 76u8, 40u8];
            append(&mut r, decimal_digits(n).as_slice());
            r.push(41);
            r
        },
    };
    assert(r@ =~= key_token(k));
    r
}

/// Every token of `ts` names a key.
pub open spec fn all_decode(ts: Seq<Vec<u8>>) -> bool {
    forall|i: int| 0 <= i < ts.len() ==> (#[trigger] decode_key(ts[i]@)) is Some
}

/// Decodes one layer: the first token that names no key is reported, then a wrong count.
pub fn layer_from_tokens(ts: &Vec<Vec<u8>>) -> (r: Result<Layer<Key>, ParseError>)
    ensures
        match r {
            Ok(l) => ts@.len() == NUM_KEYS && l@.len() == NUM_KEYS && forall|i: int|
                0 <= i < ts@.len() ==> decode_key(ts@[i]@) == Some(#[trigger] l@[i]),
            Err(ParseError::UnknownValue(t)) => exists|i: int|
                0 <= i < ts@.len() && t@ == ts@[i]@ && (#[trigger] decode_key(ts@[i]@)) is None
                    && all_decode(ts@.take(i)),
            Err(ParseError::WrongLength { expected, found }) => expected == NUM_KEYS && found
                == ts@.len() && ts@.len() != NUM_KEYS && all_decode(ts@),
            _ => false,
        },
{
    let mut keys: Vec<Key> = Vec::new();
    let mut i: usize = 0;
    while i < ts.len()
        invariant
            0 <= i <= ts@.len(),
            keys@.len() == i,
            forall|j: int| 0 <= j < i ==> decode_key(ts@[j]@) == Some(#[trigger] keys@[j]),
        decreases ts@.len() - i,
    {
        match parse_key(ts[i].as_slice()) {
            Some(k) => keys.push(k),
            None => {
                assert(all_decode(ts@.take(i as int))) by {
                    assert forall|j: int| 0 <= j < i implies (#[trigger] decode_key(ts@.take(i as int)[j]@)) is Some by {
                        assert(ts@.take(i as int)[j] == ts@[j]);
                        assert(decode_key(ts@[j]@) == Some(keys@[j]));
                    }
                }
                return Err(ParseError::UnknownValue(slice_range(ts[i].as_slice(), 0, ts[i].len())));
            },
        }
        i += 1;
    }
    assert(all_decode(ts@)) by {
        assert forall|j: int| 0 <= j < ts@.len() implies (#[trigger] decode_key(ts@[j]@)) is Some by {
            assert(decode_key(ts@[j]@) == Some(keys@[j]));
        }
    }
    if keys.len() != NUM_KEYS as usize {
        return Err(ParseError::WrongLength { expected: NUM_KEYS as usize, found: keys.len() });
    }
    Ok(Layer(keys))
}

/// The tokens of one layer.
pub fn layer_to_tokens(l: &Layer<Key>) -> (r: Vec<Vec<u8>>)
    ensures
        r@.len() == l@.len(),
        forall|i: int| 0 <= i < l@.len() ==> (#[trigger] r@[i])@ == key_token(l@[i]),
{
    let mut out: Vec<Vec<u8>> = Vec::new();
    let mut i: usize = 0;
    while i < l.0.len()
        invariant
            0 <= i <= l@.len(),
            out@.len() == i,
            forall|j: int| 0 <= j < i ==> (#[trigger] out@[j])@ == key_token(l@[j]),
        decreases l@.len() - i,
    {
        out.push(key_to_token(l.0[i]));
        i += 1;
    }
    out
}

/// Decodes the token lists of a layout's layers, reporting the first error.
pub fn layout_from_tokens(layers: &Vec<Vec<Vec<u8>>>) -> (r: Result<Layout, ParseError>)
    ensures
        r matches Ok(l) ==> l@.len() == layers@.len() && forall|i: int| 0 <= i < layers@.len() ==> (
            #[trigger] l@[i]).len() == NUM_KEYS && forall|j: int| 0 <= j < NUM_KEYS ==> decode_key(
            layers@[i]@[j]@,
        ) == Some(#[trigger] l@[i][j]),
        r is Err ==> exists|i: int| 0 <= i < layers@.len() && !(#[trigger] layers@[i]@.len() == NUM_KEYS
            && all_decode(layers@[i]@)),
{
    let mut out: Vec<Layer<Key>> = Vec::new();
    let mut i: usize = 0;
    while i < layers.len()
        invariant
            0 <= i <= layers@.len(),
            out@.len() == i,
            forall|k: int| 0 <= k < i ==> (#[trigger] out@[k])@.len() == NUM_KEYS && forall|j: int|
                0 <= j < NUM_KEYS ==> decode_key(layers@[k]@[j]@) == Some(#[trigger] out@[k]@[j]),
        decreases layers@.len() - i,
    {
        match layer_from_tokens(&layers[i]) {
            Ok(l) => out.push(l),
            Err(e) => {
                proof {
                    if let ParseError::UnknownValue(t) = &e {
                        let j = choose|j: int| 0 <= j < layers@[i as int]@.len() && t@ == layers@[i as int]@[j]@ && (#[trigger] decode_key(layers@[i as int]@[j]@)) is None && all_decode(layers@[i as int]@.take(j));
                        assert(!all_decode(layers@[i as int]@));
                    }
                    assert(!(layers@[i as int]@.len() == NUM_KEYS && all_decode(layers@[i as int]@)));
                }
                return Err(e);
            },
        }
        i += 1;
    }
    let r = Layout { layers: out };
    assert forall|k: int| 0 <= k < layers@.len() implies (#[trigger] r@[k]).len() == NUM_KEYS && forall|j: int|
        0 <= j < NUM_KEYS ==> decode_key(layers@[k]@[j]@) == Some(#[trigger] r@[k][j]) by {
        assert(r@[k] == out@[k]@);
    }
    Ok(r)
}

/// The token lists of a layout's layers.
pub fn layout_to_tokens(l: &Layout) -> (r: Vec<Vec<Vec<u8>>>)
    ensures
        r@.len() == l@.len(),
        forall|i: int| 0 <= i < l@.len() ==> (#[trigger] r@[i])@.len() == l@[i].len() && forall|j: int|
            0 <= j < l@[i].len() ==> (#[trigger] r@[i]@[j])@ == key_token(l@[i][j]),
{
    let mut out: Vec<Vec<Vec<u8>>> = Vec::new();
    let mut i: usize = 0;
    while i < l.layers.len()
        invariant
            0 <= i <= l@.len(),
            out@.len() == i,
            forall|k: int| 0 <= k < i ==> (#[trigger] out@[k])@.len() == l@[k].len() && forall|j: int|
                0 <= j < l@[k].len() ==> (#[trigger] out@[k]@[j])@ == key_token(l@[k][j]),
        decreases l@.len() - i,
    {
        assert(l.layers@[i as int]@ == l@[i as int]);
        out.push(layer_to_tokens(&l.layers[i]));
        i += 1;
    }
    out
}

/// Decoding the tokens of a layout whose layers all have `NUM_KEYS` keys gives the layout back.
pub proof fn lemma_layout_round_trip(l: Seq<Seq<Key>>, tokens: Seq<Seq<Seq<u8>>>, decoded: Seq<Seq<Key>>)
    requires
        forall|i: int| 0 <= i < l.len() ==> #[trigger] l[i].len() == NUM_KEYS,
        tokens.len() == l.len(),
        forall|i: int| 0 <= i < l.len() ==> (#[trigger] tokens[i]).len() == l[i].len() && forall|j: int|
            0 <= j < l[i].len() ==> #[trigger] tokens[i][j] == key_token(l[i][j]),
        decoded.len() == tokens.len(),
        forall|i: int| 0 <= i < tokens.len() ==> (#[trigger] decoded[i]).len() == NUM_KEYS && forall|j: int|
            0 <= j < NUM_KEYS ==> decode_key(tokens[i][j]) == Some(#[trigger] decoded[i][j]),
    ensures
        decoded == l,
        forall|i: int, j: int| 0 <= i < l.len() && 0 <= j < l[i].len() ==> decode_key(#[trigger] tokens[i][j]) is Some,
{
    assert forall|i: int, j: int| 0 <= i < l.len() && 0 <= j < l[i].len() implies decode_key(#[trigger] tokens[i][j]) == Some(l[i][j]) by {
        lemma_key_round_trip(l[i][j]);
    }
    assert forall|i: int| 0 <= i < l.len() implies #[trigger] decoded[i] == l[i] by {
        assert forall|j: int| 0 <= j < NUM_KEYS implies #[trigger] decoded[i][j] == l[i][j] by {
            assert(decode_key(tokens[i][j]) == Some(l[i][j]));
        }
        assert(decoded[i] =~= l[i]);
    }
    assert(decoded =~= l);
}

} // verus!
