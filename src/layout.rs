use vstd::prelude::*;

verus! {

/// Number of physical keys on every layer.
pub const NUM_KEYS: u8 = 34;

/// A character of the Windows-1252 code page, held as its single byte.
#[derive(Debug, Clone, Copy, PartialEq, Eq, Structural)]
pub struct Win1252Char(pub u8);

/// The physical key identifiers, each with a fixed unshifted and shifted output.
#[derive(Debug, Clone, Copy, PartialEq, Eq, Structural)]
pub enum KeyCode {
    A,
    B,
    C,
    D,
    E,
    F,
    G,
    H,
    I,
    J,
    K,
    L,
    M,
    N,
    O,
    P,
    Q,
    R,
    S,
    T,
    U,
    V,
    W,
    X,
    Y,
    Z,
    Digit0,
    Digit1,
    Digit2,
    Digit3,
    Digit4,
    Digit5,
    Digit6,
    Digit7,
    Digit8,
    Digit9,
    Comma,
    Dot,
    Apostrophe,
    Semicolon,
    Backslash,
    Slash,
    LeftSquareBracket,
    RightSquareBracket,
    Hash,
    Grave,
    Minus,
    Equals,
    Space,
    Enter,
    Tab,
}

impl KeyCode {
    /// The byte typed by this key without shift.
    pub open spec fn typed_byte(self) -> u8 {
        match self {
            KeyCode::A => 0x61,
            KeyCode::B => 0x62,
            KeyCode::C => 0x63,
            KeyCode::D => 0x64,
            KeyCode::E => 0x65,
            KeyCode::F => 0x66,
            KeyCode::G => 0x67,
            KeyCode::H => 0x68,
            KeyCode::I => 0x69,
            KeyCode::J => 0x6a,
            KeyCode::K => 0x6b,
            KeyCode::L => 0x6c,
            KeyCode::M => 0x6d,
            KeyCode::N => 0x6e,
            KeyCode::O => 0x6f,
            KeyCode::P => 0x70,
            KeyCode::Q => 0x71,
            KeyCode::R => 0x72,
            KeyCode::S => 0x73,
            KeyCode::T => 0x74,
            KeyCode::U => 0x75,
            KeyCode::V => 0x76,
            KeyCode::W => 0x77,
            KeyCode::X => 0x78,
            KeyCode::Y => 0x79,
            KeyCode::Z => 0x7a,
            KeyCode::Digit0 => 0x30,
            KeyCode::Digit1 => 0x31,
            KeyCode::Digit2 => 0x32,
            KeyCode::Digit3 => 0x33,
            KeyCode::Digit4 => 0x34,
            KeyCode::Digit5 => 0x35,
            KeyCode::Digit6 => 0x36,
            KeyCode::Digit7 => 0x37,
            KeyCode::Digit8 => 0x38,
            KeyCode::Digit9 => 0x39,
            KeyCode::Comma => 0x2c,
            KeyCode::Dot => 0x2e,
            KeyCode::Apostrophe => 0x27,
            KeyCode::Semicolon => 0x3b,
            KeyCode::Backslash => 0x5c,
            KeyCode::Slash => 0x2f,
            KeyCode::LeftSquareBracket => 0x5b,
            KeyCode::RightSquareBracket => 0x5d,
            KeyCode::Hash => 0x23,
            KeyCode::Grave => 0x60,
            KeyCode::Minus => 0x2d,
            KeyCode::Equals => 0x3d,
            KeyCode::Space => 0x20,
            KeyCode::Enter => 0x0a,
            KeyCode::Tab => 0x09,
        }
    }

    /// The byte typed by this key with shift held.
    pub open spec fn shifted_byte(self) -> u8 {
        match self {
            KeyCode::A => 0x41,
            KeyCode::B => 0x42,
            KeyCode::C => 0x43,
            KeyCode::D => 0x44,
            KeyCode::E => 0x45,
            KeyCode::F => 0x46,
            KeyCode::G => 0x47,
            KeyCode::H => 0x48,
            KeyCode::I => 0x49,
            KeyCode::J => 0x4a,
            KeyCode::K => 0x4b,
            KeyCode::L => 0x4c,
            KeyCode::M => 0x4d,
            KeyCode::N => 0x4e,
            KeyCode::O => 0x4f,
            KeyCode::P => 0x50,
            KeyCode::Q => 0x51,
            KeyCode::R => 0x52,
            KeyCode::S => 0x53,
            KeyCode::T => 0x54,
            KeyCode::U => 0x55,
            KeyCode::V => 0x56,
            KeyCode::W => 0x57,
            KeyCode::X => 0x58,
            KeyCode::Y => 0x59,
            KeyCode::Z => 0x5a,
            KeyCode::Digit0 => 0x29,
            KeyCode::Digit1 => 0x21,
            KeyCode::Digit2 => 0x22,
            KeyCode::Digit3 => 0xa3,
            KeyCode::Digit4 => 0x24,
            KeyCode::Digit5 => 0x25,
            KeyCode::Digit6 => 0x5e,
            KeyCode::Digit7 => 0x26,
            KeyCode::Digit8 => 0x2a,
            KeyCode::Digit9 => 0x28,
            KeyCode::Comma => 0x3c,
            KeyCode::Dot => 0x3e,
            KeyCode::Apostrophe => 0x40,
            KeyCode::Semicolon => 0x3a,
            KeyCode::Backslash => 0x7c,
            KeyCode::Slash => 0x3f,
            KeyCode::LeftSquareBracket => 0x7b,
            KeyCode::RightSquareBracket => 0x7d,
            KeyCode::Hash => 0x7e,
            KeyCode::Grave => 0xac,
            KeyCode::Minus => 0x5f,
            KeyCode::Equals => 0x2b,
            KeyCode::Space => 0x20,
            KeyCode::Enter => 0x0a,
            KeyCode::Tab => 0x09,
        }
    }

    pub fn typed_char(self) -> (r: Win1252Char)
        ensures
            r.0 == self.typed_byte(),
    {
        Win1252Char(
            match self {
                KeyCode::A => 0x61,
                KeyCode::B => 0x62,
                KeyCode::C => 0x63,
                KeyCode::D => 0x64,
                KeyCode::E => 0x65,
                KeyCode::F => 0x66,
                KeyCode::G => 0x67,
                KeyCode::H => 0x68,
                KeyCode::I => 0x69,
                KeyCode::J => 0x6a,
                KeyCode::K => 0x6b,
                KeyCode::L => 0x6c,
                KeyCode::M => 0x6d,
                KeyCode::N => 0x6e,
                KeyCode::O => 0x6f,
                KeyCode::P => 0x70,
                KeyCode::Q => 0x71,
                KeyCode::R => 0x72,
                KeyCode::S => 0x73,
                KeyCode::T => 0x74,
                KeyCode::U => 0x75,
                KeyCode::V => 0x76,
                KeyCode::W => 0x77,
                KeyCode::X => 0x78,
                KeyCode::Y => 0x79,
                KeyCode::Z => 0x7a,
                KeyCode::Digit0 => 0x30,
                KeyCode::Digit1 => 0x31,
                KeyCode::Digit2 => 0x32,
                KeyCode::Digit3 => 0x33,
                KeyCode::Digit4 => 0x34,
                KeyCode::Digit5 => 0x35,
                KeyCode::Digit6 => 0x36,
                KeyCode::Digit7 => 0x37,
                KeyCode::Digit8 => 0x38,
                KeyCode::Digit9 => 0x39,
                KeyCode::Comma => 0x2c,
                KeyCode::Dot => 0x2e,
                KeyCode::Apostrophe => 0x27,
                KeyCode::Semicolon => 0x3b,
                KeyCode::Backslash => 0x5c,
                KeyCode::Slash => 0x2f,
                KeyCode::LeftSquareBracket => 0x5b,
                KeyCode::RightSquareBracket => 0x5d,
                KeyCode::Hash => 0x23,
                KeyCode::Grave => 0x60,
                KeyCode::Minus => 0x2d,
                KeyCode::Equals => 0x3d,
                KeyCode::Space => 0x20,
                KeyCode::Enter => 0x0a,
                KeyCode::Tab => 0x09,
            },
        )
    }

    pub fn shifted_char(self) -> (r: Win1252Char)
        ensures
            r.0 == self.shifted_byte(),
    {
        Win1252Char(
            match self {
                KeyCode::A => 0x41,
                KeyCode::B => 0x42,
                KeyCode::C => 0x43,
                KeyCode::D => 0x44,
                KeyCode::E => 0x45,
                KeyCode::F => 0x46,
                KeyCode::G => 0x47,
                KeyCode::H => 0x48,
                KeyCode::I => 0x49,
                KeyCode::J => 0x4a,
                KeyCode::K => 0x4b,
                KeyCode::L => 0x4c,
                KeyCode::M => 0x4d,
                KeyCode::N => 0x4e,
                KeyCode::O => 0x4f,
                KeyCode::P => 0x50,
                KeyCode::Q => 0x51,
                KeyCode::R => 0x52,
                KeyCode::S => 0x53,
                KeyCode::T => 0x54,
                KeyCode::U => 0x55,
                KeyCode::V => 0x56,
                KeyCode::W => 0x57,
                KeyCode::X => 0x58,
                KeyCode::Y => 0x59,
                KeyCode::Z => 0x5a,
                KeyCode::Digit0 => 0x29,
                KeyCode::Digit1 => 0x21,
                KeyCode::Digit2 => 0x22,
                KeyCode::Digit3 => 0xa3,
                KeyCode::Digit4 => 0x24,
                KeyCode::Digit5 => 0x25,
                KeyCode::Digit6 => 0x5e,
                KeyCode::Digit7 => 0x26,
                KeyCode::Digit8 => 0x2a,
                KeyCode::Digit9 => 0x28,
                KeyCode::Comma => 0x3c,
                KeyCode::Dot => 0x3e,
                KeyCode::Apostrophe => 0x40,
                KeyCode::Semicolon => 0x3a,
                KeyCode::Backslash => 0x7c,
                KeyCode::Slash => 0x3f,
                KeyCode::LeftSquareBracket => 0x7b,
                KeyCode::RightSquareBracket => 0x7d,
                KeyCode::Hash => 0x7e,
                KeyCode::Grave => 0xac,
                KeyCode::Minus => 0x5f,
                KeyCode::Equals => 0x2b,
                KeyCode::Space => 0x20,
                KeyCode::Enter => 0x0a,
                KeyCode::Tab => 0x09,
            },
        )
    }
}

/// The role of one physical key.
#[derive(Debug, Clone, Copy, PartialEq, Eq, Structural)]
pub enum Key {
    Typing(KeyCode),
    Shifted(KeyCode),
    Empty,
    Shift,
    Layer(u8),
}

impl Key {
    /// The character this key types, given whether shift is held.
    pub open spec fn spec_typed_char(self, shifted: bool) -> Option<Win1252Char> {
        match self {
            Key::Typing(kc) => Some(
                Win1252Char(
                    if shifted {
                        kc.shifted_byte()
                    } else {
                        kc.typed_byte()
                    },
                ),
            ),
            Key::Shifted(kc) => Some(Win1252Char(kc.shifted_byte())),
            _ => None,
        }
    }

    pub open spec fn is_modifier(self) -> bool {
        self is Layer || self is Shift
    }

    /// Whether this is a layer-switch or shift key.
    pub fn is_modifier_key(self) -> (r: bool)
        ensures
            r == self.is_modifier(),
    {
        match self {
            Key::Layer(_) | Key::Shift => true,
            _ => false,
        }
    }

    #[verifier::when_used_as_spec(spec_typed_char)]
    pub fn typed_char(self, shifted: bool) -> (r: Option<Win1252Char>)
        ensures
            r == self.spec_typed_char(shifted),
    {
        match self {
            Key::Typing(kc) => Some(
                if shifted {
                    kc.shifted_char()
                } else {
                    kc.typed_char()
                },
            ),
            Key::Shifted(kc) => Some(kc.shifted_char()),
            _ => None,
        }
    }
}

/// One value per physical position; a well-formed layer has exactly `NUM_KEYS` of them.
#[derive(Debug, Clone, PartialEq, Eq)]
pub struct Layer<T>(pub Vec<T>);

impl<T> View for Layer<T> {
    type V = Seq<T>;

    open spec fn view(&self) -> Seq<T> {
        self.0@
    }
}

impl<T> Layer<T> {
    pub open spec fn wf(&self) -> bool {
        self@.len() == NUM_KEYS
    }

    pub fn get(&self, pos: u8) -> (r: &T)
        requires
            pos < self@.len(),
        ensures
            *r == self@[pos as int],
    {
        &self.0[pos as usize]
    }
}

/// An ordered list of layers; index 0 is the home layer.
#[derive(Debug, Clone, PartialEq, Eq)]
pub struct Layout {
    pub layers: Vec<Layer<Key>>,
}

impl View for Layout {
    type V = Seq<Seq<Key>>;

    open spec fn view(&self) -> Seq<Seq<Key>> {
        self.layers@.map_values(|l: Layer<Key>| l@)
    }
}

/// Every layer of `l` has exactly `NUM_KEYS` positions, and layers are addressable by a byte.
pub open spec fn layers_wf(l: Seq<Seq<Key>>) -> bool {
    &&& 1 <= l.len() <= 255
    &&& forall|i: int| 0 <= i < l.len() ==> #[trigger] l[i].len() == NUM_KEYS
}

/// The number of positions, among the first `n` of one layer, where two layers differ.
pub open spec fn layer_diff(a: Seq<Key>, b: Seq<Key>, n: int) -> nat
    decreases n,
{
    if n <= 0 {
        0
    } else {
        layer_diff(a, b, n - 1) + if a[n - 1] != b[n - 1] {
            1nat
        } else {
            0nat
        }
    }
}

/// The number of (layer, position) slots, among the first `n` layers, holding different keys.
pub open spec fn layout_diff(a: Seq<Seq<Key>>, b: Seq<Seq<Key>>, n: int) -> nat
    decreases n,
{
    if n <= 0 {
        0
    } else {
        layout_diff(a, b, n - 1) + layer_diff(a[n - 1], b[n - 1], NUM_KEYS as int)
    }
}

impl Layout {
    pub open spec fn wf(&self) -> bool {
        layers_wf(self@)
    }

    pub fn num_layers(&self) -> (r: usize)
        ensures
            r == self@.len(),
    {
        self.layers.len()
    }

    pub fn key_at(&self, layer: u8, pos: u8) -> (r: Key)
        requires
            layer < self@.len(),
            pos < self@[layer as int].len(),
        ensures
            r == self@[layer as int][pos as int],
    {
        *self.layers[layer as usize].get(pos)
    }

    /// Puts `key` into slot (layer, pos).
    pub fn set_key(&mut self, layer: u8, pos: u8, key: Key)
        requires
            layer < old(self)@.len(),
            pos < old(self)@[layer as int].len(),
        ensures
            final(self)@ == old(self)@.update(layer as int, old(self)@[layer as int].update(pos as int, key)),
    {
        let mut l = Layer(Vec::new());
        self.layers.set_and_swap(layer as usize, &mut l);
        l.0.set(pos as usize, key);
        self.layers.set_and_swap(layer as usize, &mut l);
        assert(self@ =~= old(self)@.update(layer as int, old(self)@[layer as int].update(pos as int, key)));
    }

    /// Whether any slot of the layout holds `key`.
    pub fn has_key(&self, key: Key) -> (r: bool)
        ensures
            r == exists|l: int, p: int|
                0 <= l < self@.len() && 0 <= p < self@[l].len() && #[trigger] self@[l][p] == key,
    {
        let mut l: usize = 0;
        while l < self.layers.len()
            invariant
                0 <= l <= self@.len(),
                forall|i: int, p: int| 0 <= i < l && 0 <= p < self@[i].len() ==> self@[i][p] != key,
            decreases self@.len() - l,
        {
            let layer = &self.layers[l];
            let mut p: usize = 0;
            while p < layer.0.len()
                invariant
                    0 <= l < self@.len(),
                    *layer == self.layers@[l as int],
                    0 <= p <= layer@.len(),
                    forall|q: int| 0 <= q < p ==> layer@[q] != key,
                decreases layer@.len() - p,
            {
                if layer.0[p] == key {
                    assert(self@[l as int][p as int] == key);
                    return true;
                }
                p += 1;
            }
            assert(layer@ == self@[l as int]);
            l += 1;
        }
        false
    }

    /// The number of slots that hold different keys in the two layouts, over the layers both have.
    pub fn hamming_dist(&self, other: &Layout) -> (r: usize)
        requires
            self.wf(),
            other.wf(),
        ensures
            r as int == layout_diff(self@, other@, vstd::math::min(self@.len() as int, other@.len() as int)),
    {
        let n: usize = if self.layers.len() < other.layers.len() {
            self.layers.len()
        } else {
            other.layers.len()
        };
        let mut count: usize = 0;
        let mut l: usize = 0;
        while l < n
            invariant
                self.wf(),
                other.wf(),
                n == vstd::math::min(self@.len() as int, other@.len() as int),
                0 <= l <= n,
                count as int == layout_diff(self@, other@, l as int),
                count <= 34 * l,
            decreases n - l,
        {
            let a = &self.layers[l];
            let b = &other.layers[l];
            assert(a@ == self@[l as int]);
            assert(b@ == other@[l as int]);
            let mut p: usize = 0;
            while p < NUM_KEYS as usize
                invariant
                    self.wf(),
                    other.wf(),
                    n == vstd::math::min(self@.len() as int, other@.len() as int),
                    0 <= l < n,
                    a@ == self@[l as int],
                    b@ == other@[l as int],
                    0 <= p <= NUM_KEYS,
                    count as int == layout_diff(self@, other@, l as int) + layer_diff(a@, b@, p as int),
                    count <= 34 * l + p,
                decreases NUM_KEYS - p,
            {
                if a.0[p] != b.0[p] {
                    count = count + 1;
                }
                p += 1;
            }
            l += 1;
        }
        count
    }
}

#[derive(Debug, Clone, Copy, PartialEq, Eq, Structural)]
pub enum Finger {
    Pinky,
    Ring,
    Middle,
    Index,
    Thumb,
}

#[derive(Debug, Clone, Copy, PartialEq, Eq, Structural)]
pub enum Hand {
    Left,
    Right,
}

#[derive(Debug, Clone, Copy, PartialEq, Eq, Structural)]
pub enum Digit {
    LeftPinky,
    LeftRing,
    LeftMiddle,
    LeftIndex,
    LeftThumb,
    RightPinky,
    RightRing,
    RightMiddle,
    RightIndex,
    RightThumb,
}

impl Digit {
    pub open spec fn spec_hand(self) -> Hand {
        match self {
            Digit::LeftPinky | Digit::LeftRing | Digit::LeftMiddle | Digit::LeftIndex
            | Digit::LeftThumb => Hand::Left,
            _ => Hand::Right,
        }
    }

    pub open spec fn spec_finger(self) -> Finger {
        match self {
            Digit::LeftPinky | Digit::RightPinky => Finger::Pinky,
            Digit::LeftRing | Digit::RightRing => Finger::Ring,
            Digit::LeftMiddle | Digit::RightMiddle => Finger::Middle,
            Digit::LeftIndex | Digit::RightIndex => Finger::Index,
            Digit::LeftThumb | Digit::RightThumb => Finger::Thumb,
        }
    }

    #[verifier::when_used_as_spec(spec_hand)]
    pub fn hand(self) -> (r: Hand)
        ensures
            r == self.spec_hand(),
    {
        match self {
            Digit::LeftPinky | Digit::LeftRing | Digit::LeftMiddle | Digit::LeftIndex
            | Digit::LeftThumb => Hand::Left,
            _ => Hand::Right,
        }
    }

    #[verifier::when_used_as_spec(spec_finger)]
    pub fn finger(self) -> (r: Finger)
        ensures
            r == self.spec_finger(),
    {
        match self {
            Digit::LeftPinky | Digit::RightPinky => Finger::Pinky,
            Digit::LeftRing | Digit::RightRing => Finger::Ring,
            Digit::LeftMiddle | Digit::RightMiddle => Finger::Middle,
            Digit::LeftIndex | Digit::RightIndex => Finger::Index,
            Digit::LeftThumb | Digit::RightThumb => Finger::Thumb,
        }
    }

    /// The digit of the given hand and finger.
    pub fn new(hand: Hand, finger: Finger) -> (r: Self)
        ensures
            r.hand() == hand,
            r.finger() == finger,
    {
        match (hand, finger) {
            (Hand::Left, Finger::Pinky) => Digit::LeftPinky,
            (Hand::Left, Finger::Ring) => Digit::LeftRing,
            (Hand::Left, Finger::Middle) => Digit::LeftMiddle,
            (Hand::Left, Finger::Index) => Digit::LeftIndex,
            (Hand::Left, Finger::Thumb) => Digit::LeftThumb,
            (Hand::Right, Finger::Pinky) => Digit::RightPinky,
            (Hand::Right, Finger::Ring) => Digit::RightRing,
            (Hand::Right, Finger::Middle) => Digit::RightMiddle,
            (Hand::Right, Finger::Index) => Digit::RightIndex,
            (Hand::Right, Finger::Thumb) => Digit::RightThumb,
        }
    }
}

/// Whether (row, col) names a physical key: three rows of ten, then a thumb row of four.
pub open spec fn valid_pos(row: u8, col: u8) -> bool {
    (row < 3 && col < 10) || (row == 3 && col < 4)
}

/// The digit that presses the key at (row, col).
pub open spec fn digit_for(row: u8, col: u8) -> Digit {
    if row == 3 {
        if col <= 1 {
            Digit::LeftThumb
        } else {
            Digit::RightThumb
        }
    } else if col == 0 {
        Digit::LeftPinky
    } else if col == 1 {
        Digit::LeftRing
    } else if col == 2 {
        Digit::LeftMiddle
    } else if col <= 4 {
        Digit::LeftIndex
    } else if col <= 6 {
        Digit::RightIndex
    } else if col == 7 {
        Digit::RightMiddle
    } else if col == 8 {
        Digit::RightRing
    } else {
        Digit::RightPinky
    }
}

pub fn finger_for_pos(row: u8, col: u8) -> (r: Digit)
    requires
        valid_pos(row, col),
    ensures
        r == digit_for(row, col),
{
    if row == 3 {
        if col <= 1 {
            Digit::new(Hand::Left, Finger::Thumb)
        } else {
            Digit::new(Hand::Right, Finger::Thumb)
        }
    } else {
        match col {
            0 => Digit::new(Hand::Left, Finger::Pinky),
            1 => Digit::new(Hand::Left, Finger::Ring),
            2 => Digit::new(Hand::Left, Finger::Middle),
            3 | 4 => Digit::new(Hand::Left, Finger::Index),
            5 | 6 => Digit::new(Hand::Right, Finger::Index),
            7 => Digit::new(Hand::Right, Finger::Middle),
            8 => Digit::new(Hand::Right, Finger::Ring),
            _ => Digit::new(Hand::Right, Finger::Pinky),
        }
    }
}

/// The Windows-1252 bytes of a text, or `None` when it holds a character the code page lacks.
pub uninterp spec fn win1252_encoding(s: Seq<char>) -> Option<Seq<u8>>;

/// Relies on `encoding_rs::WINDOWS_1252.encode`: its output bytes when it reports no unmappable
/// character, and `None` when it reports one. The code page is single-byte, so without an
/// unmappable character each character becomes one byte. It panics only when the output size
/// overflows `usize`, hence the bound on the input.
#[verifier::external_body]
fn encode_win1252(s: &str) -> (r: Option<Vec<u8>>)
    requires
        s@.len() <= usize::MAX / 16,
    ensures
        match r {
            Some(b) => win1252_encoding(s@) == Some(b@) && b@.len() == s@.len(),
            None => win1252_encoding(s@) is None,
        },
{
    let (out, _, had_errors) = encoding_rs::WINDOWS_1252.encode(s);
    if had_errors {
        None
    } else {
        Some(out.into_owned())
    }
}

/// Reads each byte as one Windows-1252 character.
pub fn bytes_to_chars(b: &[u8]) -> (r: Vec<Win1252Char>)
    ensures
        r@.len() == b@.len(),
        forall|i: int| 0 <= i < b@.len() ==> #[trigger] r@[i] == Win1252Char(b@[i]),
{
    let mut out: Vec<Win1252Char> = Vec::new();
    let mut i: usize = 0;
    while i < b.len()
        invariant
            0 <= i <= b@.len(),
            out@.len() == i,
            forall|j: int| 0 <= j < i ==> #[trigger] out@[j] == Win1252Char(b@[j]),
        decreases b@.len() - i,
    {
        out.push(Win1252Char(b[i]));
        i += 1;
    }
    out
}

/// The text as Windows-1252 characters, one per byte, or `None` if some character has no
/// single-byte representation.
pub fn to_bytes(string: String) -> (r: Option<Vec<Win1252Char>>)
    requires
        string@.len() <= usize::MAX / 16,
    ensures
        match win1252_encoding(string@) {
            Some(b) => r matches Some(v) && v@.len() == b.len() && v@.len() == string@.len() && forall|i: int|
                0 <= i < b.len() ==> #[trigger] v@[i] == Win1252Char(b[i]),
            None => r is None,
        },
{
    match encode_win1252(string.as_str()) {
        Some(b) => Some(bytes_to_chars(b.as_slice())),
        None => None,
    }
}

} // verus!
