use vstd::prelude::*;

use crate::cell::Color;
use crate::screen::Item;

verus! {

// Wire records are single lines of ASCII text made of `key=value` fields with
// fixed-width lowercase hex values:
//
//   placement:  "P x=XXXXXXXX y=YYYYYYYY character=CCCCCCCC fg-index=FF bg-index=BB transparent=T"
//   erasure:    "E x=XXXXXXXX y=YYYYYYYY"
//   full sync:  "S n=NNNNNNNN" followed by " x=... transparent=T" once per placement
//
// Coordinates are written biased by 2^31, so that every `i32` maps to a
// `u32`; the character is written as its scalar value; `transparent` is 1
// for a transparent cell; `n` counts the placements of a batch. Each record
// is terminated by a newline on the wire.

/// A cell placed at absolute canvas coordinates, with palette colors.
#[derive(Clone, Copy, Debug, PartialEq, Eq, Structural)]
pub struct SerializableTermChar {
    pub abs_x: i32,
    pub abs_y: i32,
    pub character: char,
    pub foreground_color: u8,
    pub background_color: u8,
    pub empty: bool,
}

/// The removal of whatever item fills absolute canvas coordinates.
#[derive(Clone, Copy, Debug, PartialEq, Eq, Structural)]
pub struct SerializableErase {
    pub abs_x: i32,
    pub abs_y: i32,
}

/// A batch of placements for catching up.
#[derive(Clone, Debug, PartialEq, Eq)]
pub struct SerializableSync {
    pub items: Vec<SerializableTermChar>,
}

/// One edit as exchanged between peers.
#[derive(Clone, Debug, PartialEq, Eq)]
pub enum Update {
    TermChar(SerializableTermChar),
    Erase(SerializableErase),
    Sync(SerializableSync),
}

/// The value an `Update` carries.
pub enum UpdateView {
    TermChar(SerializableTermChar),
    Erase(SerializableErase),
    Sync(Seq<SerializableTermChar>),
}

impl View for Update {
    type V = UpdateView;

    open spec fn view(&self) -> UpdateView {
        match self {
            Update::TermChar(t) => UpdateView::TermChar(*t),
            Update::Erase(e) => UpdateView::Erase(*e),
            Update::Sync(s) => UpdateView::Sync(s.items@),
        }
    }
}

impl SerializableTermChar {
    /// The placement that mirrors a brushed pixel at `(x, y)`: a blank
    /// opaque cell whose two colors are the pixel's palette background
    /// (index 0 when that background is not a palette color).
    pub fn from_pixel(pixel: Item, x: i32, y: i32) -> (r: Self)
        requires
            pixel.has_cell(0, 0),
        ensures
            r.abs_x == x,
            r.abs_y == y,
            r.character == ' ',
            r.foreground_color == palette_index(pixel.chars@[0]@[0].background_color),
            r.background_color == palette_index(pixel.chars@[0]@[0].background_color),
            !r.empty,
    {
        let color = pixel.chars[0][0].background_color;
        let mut color_code: u8 = 0;
        if let Color::AnsiValue(c) = color {
            color_code = c;
        }
        SerializableTermChar {
            abs_x: x,
            abs_y: y,
            character: ' ',
            foreground_color: color_code,
            background_color: color_code,
            empty: false,
        }
    }
}

/// The palette index of a color, 0 for a color outside the palette.
pub open spec fn palette_index(c: Color) -> u8 {
    match c {
        Color::AnsiValue(v) => v,
        _ => 0,
    }
}

pub open spec fn hex_digit(d: u32) -> u8 {
    if d < 10 { (48 + d) as u8 } else { (87 + d) as u8 }
}

pub open spec fn nibble(v: u32, shift: u32) -> u32 {
    (v >> shift) & 15
}

/// Eight lowercase hex digits of `v`, most significant first.
pub open spec fn hex8(v: u32) -> Seq<u8> {
    seq![
        hex_digit(nibble(v, 28)), hex_digit(nibble(v, 24)), hex_digit(nibble(v, 20)), hex_digit(nibble(v, 16)),
        hex_digit(nibble(v, 12)), hex_digit(nibble(v, 8)), hex_digit(nibble(v, 4)), hex_digit(nibble(v, 0)),
    ]
}

/// Two lowercase hex digits of `v`.
pub open spec fn hex2(v: u8) -> Seq<u8> {
    seq![hex_digit((v / 16) as u32), hex_digit((v % 16) as u32)]
}

/// An `i32` biased by 2^31 into the range of `u32`.
pub open spec fn biased(x: i32) -> u32 {
    (x + 0x8000_0000) as u32
}

pub open spec fn flag_byte(b: bool) -> u8 {
    if b { 49 } else { 48 }
}

/// `name=` preceded by a space.
pub open spec fn key(name: Seq<u8>) -> Seq<u8> {
    seq![32u8] + name + seq![61u8]
}

pub open spec fn name_y() -> Seq<u8> {
    seq![121u8]
}

/// `character`
pub open spec fn name_character() -> Seq<u8> {
    seq![99u8, 104u8, 97u8, 114u8, 97u8, 99u8, 116u8, 101u8, 114u8]
}

/// `fg-index`
pub open spec fn name_fg_index() -> Seq<u8> {
    seq![102u8, 103u8, 45u8, 105u8, 110u8, 100u8, 101u8, 120u8]
}

/// `bg-index`
pub open spec fn name_bg_index() -> Seq<u8> {
    seq![98u8, 103u8, 45u8, 105u8, 110u8, 100u8, 101u8, 120u8]
}

/// `transparent`
pub open spec fn name_transparent() -> Seq<u8> {
    seq![116u8, 114u8, 97u8, 110u8, 115u8, 112u8, 97u8, 114u8, 101u8, 110u8, 116u8]
}

/// The fields of a placement, from `x=` to `t=`.
pub open spec fn place_body(p: SerializableTermChar) -> Seq<u8> {
    seq![120u8, 61u8] + hex8(biased(p.abs_x))
        + key(name_y()) + hex8(biased(p.abs_y))
        + key(name_character()) + hex8(p.character as u32)
        + key(name_fg_index()) + hex2(p.foreground_color)
        + key(name_bg_index()) + hex2(p.background_color)
        + key(name_transparent()) + seq![flag_byte(p.empty)]
}

pub open spec fn sync_bodies(items: Seq<SerializableTermChar>) -> Seq<u8>
    decreases items.len(),
{
    if items.len() == 0 {
        seq![]
    } else {
        sync_bodies(items.drop_last()) + seq![32u8] + place_body(items.last())
    }
}

/// The record of an update, without its line terminator.
pub open spec fn record(u: UpdateView) -> Seq<u8> {
    match u {
        UpdateView::TermChar(p) => seq![80u8, 32u8] + place_body(p),
        UpdateView::Erase(e) => seq![69u8, 32u8, 120u8, 61u8] + hex8(biased(e.abs_x)) + key(name_y()) + hex8(biased(e.abs_y)),
        UpdateView::Sync(items) => seq![83u8, 32u8, 110u8, 61u8] + hex8(items.len() as u32) + sync_bodies(items),
    }
}

/// Whether an update can be written as a record: a batch must count its
/// placements in 32 bits.
pub open spec fn encodable(u: UpdateView) -> bool {
    match u {
        UpdateView::Sync(items) => items.len() <= u32::MAX,
        _ => true,
    }
}

pub const PLACE_BODY_LEN: usize = 78;
pub const ERASE_LEN: usize = 23;
pub const SYNC_HEAD_LEN: usize = 12;

proof fn lemma_hex8_layout(v: u32)
    ensures
        hex8(v).len() == 8,
        forall|i: int| 0 <= i < 8 ==> #[trigger] hex8(v)[i] == hex_digit(nibble(v, (28 - 4 * i) as u32)),
{
}

/// Which bytes of a placement body hold which field.
proof fn lemma_place_body_layout(p: SerializableTermChar)
    ensures
        place_body(p).len() == PLACE_BODY_LEN,
        place_body(p).subrange(0, 2) == seq![120u8, 61u8],
        place_body(p).subrange(2, 10) == hex8(biased(p.abs_x)),
        place_body(p).subrange(10, 13) == key(name_y()),
        place_body(p).subrange(13, 21) == hex8(biased(p.abs_y)),
        place_body(p).subrange(21, 32) == key(name_character()),
        place_body(p).subrange(32, 40) == hex8(p.character as u32),
        place_body(p).subrange(40, 50) == key(name_fg_index()),
        place_body(p).subrange(50, 52) == hex2(p.foreground_color),
        place_body(p).subrange(52, 62) == key(name_bg_index()),
        place_body(p).subrange(62, 64) == hex2(p.background_color),
        place_body(p).subrange(64, 77) == key(name_transparent()),
        place_body(p)[77] == flag_byte(p.empty),
{
    let b = place_body(p);
    assert(b.subrange(0, 2) =~= seq![120u8, 61u8]);
    assert(b.subrange(2, 10) =~= hex8(biased(p.abs_x)));
    assert(b.subrange(10, 13) =~= key(name_y()));
    assert(b.subrange(13, 21) =~= hex8(biased(p.abs_y)));
    assert(b.subrange(21, 32) =~= key(name_character()));
    assert(b.subrange(32, 40) =~= hex8(p.character as u32));
    assert(b.subrange(40, 50) =~= key(name_fg_index()));
    assert(b.subrange(50, 52) =~= hex2(p.foreground_color));
    assert(b.subrange(52, 62) =~= key(name_bg_index()));
    assert(b.subrange(62, 64) =~= hex2(p.background_color));
    assert(b.subrange(64, 77) =~= key(name_transparent()));
}

/// The value of one hex digit byte.
fn parse_hex_digit(b: u8) -> (r: Option<u32>)
    ensures
        match r {
            Some(d) => d < 16 && hex_digit(d) == b,
            None => forall|d: u32| d < 16 ==> hex_digit(d) != b,
        },
{
    if 48 <= b && b <= 57 {
        Some((b - 48) as u32)
    } else if 97 <= b && b <= 102 {
        Some((b - 87) as u32)
    } else {
        None
    }
}

proof fn lemma_hex_digit_injective(d: u32, e: u32)
    requires
        d < 16,
        e < 16,
        hex_digit(d) == hex_digit(e),
    ensures
        d == e,
{
}

proof fn lemma_nibbles(v: u32)
    ensures
        nibble(v, 28) < 16, nibble(v, 24) < 16, nibble(v, 20) < 16, nibble(v, 16) < 16,
        nibble(v, 12) < 16, nibble(v, 8) < 16, nibble(v, 4) < 16, nibble(v, 0) < 16,
{
    assert(((v >> 28u32) & 15u32) < 16u32 && ((v >> 24u32) & 15u32) < 16u32 && ((v >> 20u32) & 15u32) < 16u32
        && ((v >> 16u32) & 15u32) < 16u32 && ((v >> 12u32) & 15u32) < 16u32 && ((v >> 8u32) & 15u32) < 16u32
        && ((v >> 4u32) & 15u32) < 16u32 && ((v >> 0u32) & 15u32) < 16u32) by (bit_vector);
}

/// Reads eight hex digits at `at`.
fn parse_hex8(s: &[u8], at: usize) -> (r: Option<u32>)
    requires
        at + 8 <= s@.len(),
    ensures
        match r {
            Some(v) => s@.subrange(at as int, at + 8) == hex8(v),
            None => forall|v: u32| s@.subrange(at as int, at + 8) != hex8(v),
        },
{
    let mut digits: [u32; 8] = [0u32; 8];
    let mut i: usize = 0;
    while i < 8
        invariant
            0 <= i <= 8,
            at + 8 <= s@.len(),
            s@.len() == s.len(),
            forall|j: int| 0 <= j < i ==> digits@[j] < 16 && hex_digit(#[trigger] digits@[j]) == s@[at + j],
        decreases 8 - i,
    {
        match parse_hex_digit(s[at + i]) {
            Some(d) => {
                digits[i] = d;
            },
            None => {
                proof {
                    assert forall|v: u32| s@.subrange(at as int, at + 8) != hex8(v) by {
                        lemma_nibbles(v);
                        lemma_hex8_layout(v);
                        if s@.subrange(at as int, at + 8) == hex8(v) {
                            assert(s@[at + i] == hex8(v)[i as int]);
                        }
                    }
                }
                return None;
            },
        }
        i += 1;
    }
    let d0 = digits[0];
    let d1 = digits[1];
    let d2 = digits[2];
    let d3 = digits[3];
    let d4 = digits[4];
    let d5 = digits[5];
    let d6 = digits[6];
    let d7 = digits[7];
    let v: u32 = (d0 << 28u32) | (d1 << 24u32) | (d2 << 20u32) | (d3 << 16u32) | (d4 << 12u32) | (d5 << 8u32)
        | (d6 << 4u32) | d7;
    proof {
        assert(d0 < 16 && d1 < 16 && d2 < 16 && d3 < 16 && d4 < 16 && d5 < 16 && d6 < 16 && d7 < 16);
        assert(((v >> 28u32) & 15u32) == d0 && ((v >> 24u32) & 15u32) == d1 && ((v >> 20u32) & 15u32) == d2
            && ((v >> 16u32) & 15u32) == d3 && ((v >> 12u32) & 15u32) == d4 && ((v >> 8u32) & 15u32) == d5
            && ((v >> 4u32) & 15u32) == d6 && ((v >> 0u32) & 15u32) == d7) by (bit_vector)
            requires
                d0 < 16u32 && d1 < 16u32 && d2 < 16u32 && d3 < 16u32 && d4 < 16u32 && d5 < 16u32 && d6 < 16u32 && d7 < 16u32,
                v == (d0 << 28u32) | (d1 << 24u32) | (d2 << 20u32) | (d3 << 16u32) | (d4 << 12u32) | (d5 << 8u32)
                    | (d6 << 4u32) | d7;
        assert(s@.subrange(at as int, at + 8) =~= hex8(v));
    }
    Some(v)
}

/// Reads two hex digits at `at`.
fn parse_hex2(s: &[u8], at: usize) -> (r: Option<u8>)
    requires
        at + 2 <= s@.len(),
    ensures
        match r {
            Some(v) => s@.subrange(at as int, at + 2) == hex2(v),
            None => forall|v: u8| s@.subrange(at as int, at + 2) != hex2(v),
        },
{
    let hi = parse_hex_digit(s[at]);
    let lo = parse_hex_digit(s[at + 1]);
    match (hi, lo) {
        (Some(h), Some(l)) => {
            let v: u8 = (h * 16 + l) as u8;
            assert(s@.subrange(at as int, at + 2) =~= hex2(v));
            Some(v)
        },
        _ => {
            proof {
                assert forall|v: u8| s@.subrange(at as int, at + 2) != hex2(v) by {
                    if s@.subrange(at as int, at + 2) == hex2(v) {
                        assert(s@[at as int] == hex2(v)[0]);
                        assert(s@[at + 1] == hex2(v)[1]);
                    }
                }
            }
            None
        },
    }
}

/// Whether the bytes at `at` are ` name=`.
fn is_key(s: &[u8], at: usize, name: &[u8]) -> (r: bool)
    requires
        at + name@.len() + 2 <= s@.len(),
    ensures
        r == (s@.subrange(at as int, at + name@.len() + 2) == key(name@)),
{
    let ghost k = key(name@);
    let ghost t = s@.subrange(at as int, at + name@.len() + 2);
    assert(k.len() == name@.len() + 2);
    let mut i: usize = 0;
    while i < name.len() + 2
        invariant
            0 <= i <= name@.len() + 2,
            at + name@.len() + 2 <= s@.len(),
            s@.len() == s.len(),
            k == key(name@),
            t == s@.subrange(at as int, at + name@.len() + 2),
            forall|j: int| 0 <= j < i ==> t[j] == k[j],
        decreases name@.len() + 2 - i,
    {
        let want: u8 = if i == 0 { 32 } else if i == name.len() + 1 { 61 } else { name[i - 1] };
        assert(want == k[i as int]);
        if s[at + i] != want {
            assert(t[i as int] != k[i as int]);
            return false;
        }
        i += 1;
    }
    assert(t =~= k);
    true
}

/// Relies on `char::from_u32`: a character exactly for Unicode scalar values.
#[verifier::external_body]
fn char_from_u32(v: u32) -> (r: Option<char>)
    ensures
        match r {
            Some(c) => c as u32 == v,
            None => !valid_scalar(v),
        },
{
    char::from_u32(v)
}

pub open spec fn valid_scalar(v: u32) -> bool {
    v <= 0xD7FF || (0xE000 <= v && v <= 0x10FFFF)
}

fn unbias(u: u32) -> (x: i32)
    ensures
        biased(x) == u,
{
    (u as i64 - 0x8000_0000) as i32
}

proof fn lemma_biased_injective(x: i32, y: i32)
    requires
        biased(x) == biased(y),
    ensures
        x == y,
{
}

/// The fields of a placement body, each at its place in `t`.
pub open spec fn body_fields(t: Seq<u8>, p: SerializableTermChar) -> bool {
    &&& t.subrange(0, 2) == seq![120u8, 61u8]
    &&& t.subrange(2, 10) == hex8(biased(p.abs_x))
    &&& t.subrange(10, 13) == key(name_y())
    &&& t.subrange(13, 21) == hex8(biased(p.abs_y))
    &&& t.subrange(21, 32) == key(name_character())
    &&& t.subrange(32, 40) == hex8(p.character as u32)
    &&& t.subrange(40, 50) == key(name_fg_index())
    &&& t.subrange(50, 52) == hex2(p.foreground_color)
    &&& t.subrange(52, 62) == key(name_bg_index())
    &&& t.subrange(62, 64) == hex2(p.background_color)
    &&& t.subrange(64, 77) == key(name_transparent())
    &&& t[77] == flag_byte(p.empty)
}

#[verifier::rlimit(40)]
proof fn lemma_place_body_iff(t: Seq<u8>, p: SerializableTermChar)
    requires
        t.len() == PLACE_BODY_LEN,
    ensures
        (t == place_body(p)) == body_fields(t, p),
{
    lemma_place_body_layout(p);
    if body_fields(t, p) {
        let b = place_body(p);
        assert forall|i: int| 0 <= i < PLACE_BODY_LEN implies #[trigger] t[i] == b[i] by {
            if i < 2 {
                assert(t[i] == t.subrange(0, 2)[i]);
                assert(b[i] == b.subrange(0, 2)[i]);
            } else if i < 10 {
                assert(t[i] == t.subrange(2, 10)[i - 2]);
                assert(b[i] == b.subrange(2, 10)[i - 2]);
            } else if i < 13 {
                assert(t[i] == t.subrange(10, 13)[i - 10]);
                assert(b[i] == b.subrange(10, 13)[i - 10]);
            } else if i < 21 {
                assert(t[i] == t.subrange(13, 21)[i - 13]);
                assert(b[i] == b.subrange(13, 21)[i - 13]);
            } else if i < 32 {
                assert(t[i] == t.subrange(21, 32)[i - 21]);
                assert(b[i] == b.subrange(21, 32)[i - 21]);
            } else if i < 40 {
                assert(t[i] == t.subrange(32, 40)[i - 32]);
                assert(b[i] == b.subrange(32, 40)[i - 32]);
            } else if i < 50 {
                assert(t[i] == t.subrange(40, 50)[i - 40]);
                assert(b[i] == b.subrange(40, 50)[i - 40]);
            } else if i < 52 {
                assert(t[i] == t.subrange(50, 52)[i - 50]);
                assert(b[i] == b.subrange(50, 52)[i - 50]);
            } else if i < 62 {
                assert(t[i] == t.subrange(52, 62)[i - 52]);
                assert(b[i] == b.subrange(52, 62)[i - 52]);
            } else if i < 64 {
                assert(t[i] == t.subrange(62, 64)[i - 62]);
                assert(b[i] == b.subrange(62, 64)[i - 62]);
            } else if i < 77 {
                assert(t[i] == t.subrange(64, 77)[i - 64]);
                assert(b[i] == b.subrange(64, 77)[i - 64]);
            }
        }
        assert(t =~= b);
    }
}

/// A subrange of `s` starting at `at` seen through the window `t`.
proof fn lemma_window(s: Seq<u8>, at: int, t: Seq<u8>, a: int, b: int)
    requires
        0 <= at,
        0 <= a <= b <= t.len(),
        at + t.len() <= s.len(),
        t == s.subrange(at, at + t.len()),
    ensures
        s.subrange(at + a, at + b) == t.subrange(a, b),
{
    assert(s.subrange(at + a, at + b) =~= t.subrange(a, b));
}

/// Reads the placement body that starts at `at`.
fn parse_place_body(s: &[u8], at: usize) -> (r: Option<SerializableTermChar>)
    requires
        at + PLACE_BODY_LEN <= s@.len(),
    ensures
        match r {
            Some(p) => s@.subrange(at as int, at + PLACE_BODY_LEN) == place_body(p),
            None => forall|p: SerializableTermChar| s@.subrange(at as int, at + PLACE_BODY_LEN) != place_body(p),
        },
{
    let ghost t = s@.subrange(at as int, at + PLACE_BODY_LEN);
    proof {
        lemma_window(s@, at as int, t, 0, 2);
        lemma_window(s@, at as int, t, 2, 10);
        lemma_window(s@, at as int, t, 10, 13);
        lemma_window(s@, at as int, t, 13, 21);
        lemma_window(s@, at as int, t, 21, 32);
        lemma_window(s@, at as int, t, 32, 40);
        lemma_window(s@, at as int, t, 40, 50);
        lemma_window(s@, at as int, t, 50, 52);
        lemma_window(s@, at as int, t, 52, 62);
        lemma_window(s@, at as int, t, 62, 64);
        lemma_window(s@, at as int, t, 64, 77);
        assert(t[77] == s@[at + 77]);
    }
    let key_y: [u8; 1] = [121];
    let key_c: [u8; 9] = [99, 104, 97, 114, 97, 99, 116, 101, 114];
    let key_f: [u8; 8] = [102, 103, 45, 105, 110, 100, 101, 120];
    let key_b: [u8; 8] = [98, 103, 45, 105, 110, 100, 101, 120];
    let key_t: [u8; 11] = [116, 114, 97, 110, 115, 112, 97, 114, 101, 110, 116];
    proof {
        assert(key_y@ =~= name_y());
        assert(key_c@ =~= name_character());
        assert(key_f@ =~= name_fg_index());
        assert(key_b@ =~= name_bg_index());
        assert(key_t@ =~= name_transparent());
    }
    let k0 = s[at] == 120 && s[at + 1] == 61;
    let x = parse_hex8(s, at + 2);
    let ky = is_key(s, at + 10, &key_y);
    let y = parse_hex8(s, at + 13);
    let kc = is_key(s, at + 21, &key_c);
    let c = parse_hex8(s, at + 32);
    let kf = is_key(s, at + 40, &key_f);
    let f = parse_hex2(s, at + 50);
    let kb = is_key(s, at + 52, &key_b);
    let b = parse_hex2(s, at + 62);
    let kt = is_key(s, at + 64, &key_t);
    let tb = s[at + 77];
    proof {
        if k0 {
            assert(t.subrange(0, 2) =~= seq![120u8, 61u8]);
        } else {
            assert(t.subrange(0, 2)[0] == t[0] && t.subrange(0, 2)[1] == t[1]);
        }
    }
    let mut r: Option<SerializableTermChar> = None;
    if k0 && ky && kc && kf && kb && kt && (tb == 48 || tb == 49) {
        if let (Some(xv), Some(yv), Some(cv), Some(fv), Some(bv)) = (x, y, c, f, b) {
            match char_from_u32(cv) {
                Some(ch) => {
                    let p = SerializableTermChar {
                        abs_x: unbias(xv),
                        abs_y: unbias(yv),
                        character: ch,
                        foreground_color: fv,
                        background_color: bv,
                        empty: tb == 49,
                    };
                    proof {
                        lemma_place_body_iff(t, p);
                    }
                    r = Some(p);
                },
                None => {},
            }
        }
    }
    proof {
        if r is None {
            assert forall|p: SerializableTermChar| t != place_body(p) by {
                lemma_place_body_iff(t, p);
                if t == place_body(p) {
                    if let Some(cv) = c {
                        lemma_hex8_injective(cv, p.character as u32);
                    }
                }
            }
        }
    }
    r
}

proof fn lemma_hex8_injective(v: u32, w: u32)
    requires
        hex8(v) == hex8(w),
    ensures
        v == w,
{
    lemma_nibbles(v);
    lemma_nibbles(w);
    assert(hex8(v)[0] == hex8(w)[0]);
    assert(hex8(v)[1] == hex8(w)[1]);
    assert(hex8(v)[2] == hex8(w)[2]);
    assert(hex8(v)[3] == hex8(w)[3]);
    assert(hex8(v)[4] == hex8(w)[4]);
    assert(hex8(v)[5] == hex8(w)[5]);
    assert(hex8(v)[6] == hex8(w)[6]);
    assert(hex8(v)[7] == hex8(w)[7]);
    lemma_hex_digit_injective(nibble(v, 28), nibble(w, 28));
    lemma_hex_digit_injective(nibble(v, 24), nibble(w, 24));
    lemma_hex_digit_injective(nibble(v, 20), nibble(w, 20));
    lemma_hex_digit_injective(nibble(v, 16), nibble(w, 16));
    lemma_hex_digit_injective(nibble(v, 12), nibble(w, 12));
    lemma_hex_digit_injective(nibble(v, 8), nibble(w, 8));
    lemma_hex_digit_injective(nibble(v, 4), nibble(w, 4));
    lemma_hex_digit_injective(nibble(v, 0), nibble(w, 0));
    assert(v == w) by (bit_vector)
        requires
            ((v >> 28u32) & 15u32) == ((w >> 28u32) & 15u32) && ((v >> 24u32) & 15u32) == ((w >> 24u32) & 15u32)
                && ((v >> 20u32) & 15u32) == ((w >> 20u32) & 15u32) && ((v >> 16u32) & 15u32) == ((w >> 16u32) & 15u32)
                && ((v >> 12u32) & 15u32) == ((w >> 12u32) & 15u32) && ((v >> 8u32) & 15u32) == ((w >> 8u32) & 15u32)
                && ((v >> 4u32) & 15u32) == ((w >> 4u32) & 15u32) && ((v >> 0u32) & 15u32) == ((w >> 0u32) & 15u32);
}

} // verus!

verus! {

fn hex_digit_byte(d: u32) -> (r: u8)
    requires
        d < 16,
    ensures
        r == hex_digit(d),
{
    if d < 10 { (48 + d) as u8 } else { (87 + d) as u8 }
}

fn push_hex8(out: &mut Vec<u8>, v: u32)
    ensures
        final(out)@ == old(out)@ + hex8(v),
{
    proof {
        lemma_nibbles(v);
    }
    out.push(hex_digit_byte((v >> 28u32) & 15));
    out.push(hex_digit_byte((v >> 24u32) & 15));
    out.push(hex_digit_byte((v >> 20u32) & 15));
    out.push(hex_digit_byte((v >> 16u32) & 15));
    out.push(hex_digit_byte((v >> 12u32) & 15));
    out.push(hex_digit_byte((v >> 8u32) & 15));
    out.push(hex_digit_byte((v >> 4u32) & 15));
    out.push(hex_digit_byte((v >> 0u32) & 15));
    assert(final(out)@ =~= old(out)@ + hex8(v));
}

fn push_hex2(out: &mut Vec<u8>, v: u8)
    ensures
        final(out)@ == old(out)@ + hex2(v),
{
    out.push(hex_digit_byte((v / 16) as u32));
    out.push(hex_digit_byte((v % 16) as u32));
    assert(final(out)@ =~= old(out)@ + hex2(v));
}

fn push_key(out: &mut Vec<u8>, name: &[u8])
    ensures
        final(out)@ == old(out)@ + key(name@),
{
    out.push(32);
    let ghost start = out@;
    let mut i: usize = 0;
    while i < name.len()
        invariant
            0 <= i <= name@.len(),
            out@ == start + name@.take(i as int),
        decreases name@.len() - i,
    {
        out.push(name[i]);
        assert(out@ =~= start + name@.take(i + 1));
        i += 1;
    }
    assert(name@.take(i as int) =~= name@);
    out.push(61);
    assert(final(out)@ =~= old(out)@ + key(name@));
}

fn bias(x: i32) -> (r: u32)
    ensures
        r == biased(x),
{
    (x as i64 + 0x8000_0000) as u32
}

fn push_place_body(out: &mut Vec<u8>, p: &SerializableTermChar)
    ensures
        final(out)@ == old(out)@ + place_body(*p),
{
    out.push(120);
    out.push(61);
    push_hex8(out, bias(p.abs_x));
    let key_y: [u8; 1] = [121];
    let key_c: [u8; 9] = [99, 104, 97, 114, 97, 99, 116, 101, 114];
    let key_f: [u8; 8] = [102, 103, 45, 105, 110, 100, 101, 120];
    let key_b: [u8; 8] = [98, 103, 45, 105, 110, 100, 101, 120];
    let key_t: [u8; 11] = [116, 114, 97, 110, 115, 112, 97, 114, 101, 110, 116];
    proof {
        assert(key_y@ =~= name_y());
        assert(key_c@ =~= name_character());
        assert(key_f@ =~= name_fg_index());
        assert(key_b@ =~= name_bg_index());
        assert(key_t@ =~= name_transparent());
    }
    push_key(out, &key_y);
    push_hex8(out, bias(p.abs_y));
    push_key(out, &key_c);
    push_hex8(out, p.character as u32);
    push_key(out, &key_f);
    push_hex2(out, p.foreground_color);
    push_key(out, &key_b);
    push_hex2(out, p.background_color);
    push_key(out, &key_t);
    out.push(if p.empty { 49 } else { 48 });
    assert(final(out)@ =~= old(out)@ + place_body(*p));
}

/// The wire bytes of an update: its record and a line terminator.
pub fn encode(update: &Update) -> (r: Vec<u8>)
    requires
        encodable(update@),
    ensures
        r@ == record(update@).push(10),
{
    let mut out: Vec<u8> = Vec::new();
    match update {
        Update::TermChar(p) => {
            out.push(80);
            out.push(32);
            push_place_body(&mut out, p);
        },
        Update::Erase(e) => {
            out.push(69);
            out.push(32);
            out.push(120);
            out.push(61);
            push_hex8(&mut out, bias(e.abs_x));
            let key_y: [u8; 1] = [121];
            assert(key_y@ =~= name_y());
            push_key(&mut out, &key_y);
            push_hex8(&mut out, bias(e.abs_y));
        },
        Update::Sync(s) => {
            out.push(83);
            out.push(32);
            out.push(110);
            out.push(61);
            push_hex8(&mut out, s.items.len() as u32);
            let ghost head = out@;
            let mut k: usize = 0;
            while k < s.items.len()
                invariant
                    0 <= k <= s.items@.len(),
                    out@ == head + sync_bodies(s.items@.take(k as int)),
                decreases s.items@.len() - k,
            {
                out.push(32);
                push_place_body(&mut out, &s.items[k]);
                assert(s.items@.take(k + 1).drop_last() =~= s.items@.take(k as int));
                assert(out@ =~= head + sync_bodies(s.items@.take(k + 1)));
                k += 1;
            }
            assert(s.items@.take(k as int) =~= s.items@);
        },
    }
    out.push(10);
    assert(out@ =~= record(update@).push(10));
    out
}

/// The update whose record is `s`, if any.
pub open spec fn decoded(s: Seq<u8>) -> Option<UpdateView> {
    if exists|v: UpdateView| encodable(v) && record(v) == s {
        Some(choose|v: UpdateView| encodable(v) && record(v) == s)
    } else {
        None
    }
}

/// Where the parts of a batch of placements lie.
proof fn lemma_sync_bodies_layout(items: Seq<SerializableTermChar>)
    ensures
        sync_bodies(items).len() == 79 * items.len(),
        forall|k: int| 0 <= k < items.len() ==> #[trigger] sync_bodies(items).subrange(79 * k, 79 * k + 79)
            == seq![32u8] + place_body(items[k]),
    decreases items.len(),
{
    if items.len() > 0 {
        let rest = items.drop_last();
        lemma_sync_bodies_layout(rest);
        lemma_place_body_layout(items.last());
        let b = sync_bodies(items);
        let n = items.len() - 1;
        assert forall|k: int| 0 <= k < items.len() implies #[trigger] b.subrange(79 * k, 79 * k + 79)
            == seq![32u8] + place_body(items[k]) by {
            if k < n {
                assert(rest[k] == items[k]);
                assert(b.subrange(79 * k, 79 * k + 79) =~= sync_bodies(rest).subrange(79 * k, 79 * k + 79));
            } else {
                assert(b.subrange(79 * k, 79 * k + 79) =~= seq![32u8] + place_body(items[k]));
            }
        }
    }
}

proof fn lemma_place_body_injective(p: SerializableTermChar, q: SerializableTermChar)
    requires
        place_body(p) == place_body(q),
    ensures
        p == q,
{
    lemma_place_body_layout(p);
    lemma_place_body_layout(q);
    lemma_hex8_injective(biased(p.abs_x), biased(q.abs_x));
    lemma_hex8_injective(biased(p.abs_y), biased(q.abs_y));
    lemma_hex8_injective(p.character as u32, q.character as u32);
    assert(hex2(p.foreground_color)[0] == hex2(q.foreground_color)[0]);
    assert(hex2(p.foreground_color)[1] == hex2(q.foreground_color)[1]);
    assert(hex2(p.background_color)[0] == hex2(q.background_color)[0]);
    assert(hex2(p.background_color)[1] == hex2(q.background_color)[1]);
    lemma_hex_digit_injective((p.foreground_color / 16) as u32, (q.foreground_color / 16) as u32);
    lemma_hex_digit_injective((p.foreground_color % 16) as u32, (q.foreground_color % 16) as u32);
    lemma_hex_digit_injective((p.background_color / 16) as u32, (q.background_color / 16) as u32);
    lemma_hex_digit_injective((p.background_color % 16) as u32, (q.background_color % 16) as u32);
}

proof fn lemma_place_record_layout(p: SerializableTermChar)
    ensures
        record(UpdateView::TermChar(p)).len() == 2 + PLACE_BODY_LEN,
        record(UpdateView::TermChar(p))[0] == 80u8,
        record(UpdateView::TermChar(p))[1] == 32u8,
        record(UpdateView::TermChar(p)).subrange(2, 80) == place_body(p),
{
    lemma_place_body_layout(p);
    assert(record(UpdateView::TermChar(p)).subrange(2, 80) =~= place_body(p));
}

proof fn lemma_erase_record_layout(e: SerializableErase)
    ensures
        record(UpdateView::Erase(e)).len() == ERASE_LEN,
        record(UpdateView::Erase(e))[0] == 69u8,
        record(UpdateView::Erase(e))[1] == 32u8,
        record(UpdateView::Erase(e))[2] == 120u8,
        record(UpdateView::Erase(e))[3] == 61u8,
        record(UpdateView::Erase(e)).subrange(4, 12) == hex8(biased(e.abs_x)),
        record(UpdateView::Erase(e)).subrange(12, 15) == key(name_y()),
        record(UpdateView::Erase(e)).subrange(15, 23) == hex8(biased(e.abs_y)),
{
    let r = record(UpdateView::Erase(e));
    assert(r.subrange(4, 12) =~= hex8(biased(e.abs_x)));
    assert(r.subrange(12, 15) =~= key(name_y()));
    assert(r.subrange(15, 23) =~= hex8(biased(e.abs_y)));
}

proof fn lemma_sync_record_layout(items: Seq<SerializableTermChar>)
    ensures
        record(UpdateView::Sync(items)).len() == SYNC_HEAD_LEN + 79 * items.len(),
        record(UpdateView::Sync(items))[0] == 83u8,
        record(UpdateView::Sync(items))[1] == 32u8,
        record(UpdateView::Sync(items))[2] == 110u8,
        record(UpdateView::Sync(items))[3] == 61u8,
        record(UpdateView::Sync(items)).subrange(4, 12) == hex8(items.len() as u32),
        record(UpdateView::Sync(items)).subrange(12, SYNC_HEAD_LEN + 79 * items.len()) == sync_bodies(items),
{
    let r = record(UpdateView::Sync(items));
    lemma_sync_bodies_layout(items);
    assert(r.subrange(4, 12) =~= hex8(items.len() as u32));
    assert(r.subrange(12, r.len() as int) =~= sync_bodies(items));
}

proof fn lemma_record_layout(u: UpdateView)
    ensures
        record(u)[0] == match u {
            UpdateView::TermChar(_) => 80u8,
            UpdateView::Erase(_) => 69u8,
            UpdateView::Sync(_) => 83u8,
        },
        record(u).len() == match u {
            UpdateView::TermChar(_) => 2 + PLACE_BODY_LEN,
            UpdateView::Erase(_) => ERASE_LEN as int,
            UpdateView::Sync(items) => SYNC_HEAD_LEN + 79 * items.len(),
        },
{
    match u {
        UpdateView::TermChar(p) => lemma_place_record_layout(p),
        UpdateView::Erase(e) => lemma_erase_record_layout(e),
        UpdateView::Sync(items) => lemma_sync_record_layout(items),
    }
}

/// Distinct updates have distinct records.
pub proof fn lemma_record_injective(u: UpdateView, v: UpdateView)
    requires
        encodable(u),
        encodable(v),
        record(u) == record(v),
    ensures
        u == v,
{
    lemma_record_layout(u);
    lemma_record_layout(v);
    match (u, v) {
        (UpdateView::TermChar(p), UpdateView::TermChar(q)) => {
            lemma_place_record_layout(p);
            lemma_place_record_layout(q);
            lemma_place_body_injective(p, q);
        },
        (UpdateView::Erase(e), UpdateView::Erase(f)) => {
            lemma_erase_record_layout(e);
            lemma_erase_record_layout(f);
            lemma_hex8_injective(biased(e.abs_x), biased(f.abs_x));
            lemma_hex8_injective(biased(e.abs_y), biased(f.abs_y));
        },
        (UpdateView::Sync(a), UpdateView::Sync(b)) => {
            lemma_sync_record_layout(a);
            lemma_sync_record_layout(b);
            lemma_hex8_injective(a.len() as u32, b.len() as u32);
            lemma_sync_bodies_layout(a);
            lemma_sync_bodies_layout(b);
            assert forall|k: int| 0 <= k < a.len() implies a[k] == b[k] by {
                let sa = sync_bodies(a).subrange(79 * k, 79 * k + 79);
                let sb = sync_bodies(b).subrange(79 * k, 79 * k + 79);
                assert(sa == sb);
                assert(sa.subrange(1, 79) =~= place_body(a[k]));
                assert(sb.subrange(1, 79) =~= place_body(b[k]));
                lemma_place_body_injective(a[k], b[k]);
            }
            assert(a =~= b);
        },
        _ => {},
    }
}

/// Decoding the record of any update gives that update back.
pub proof fn lemma_round_trip(u: UpdateView)
    requires
        encodable(u),
    ensures
        decoded(record(u)) == Some(u),
{
    let v = choose|v: UpdateView| encodable(v) && record(v) == record(u);
    lemma_record_injective(u, v);
}

} // verus!

verus! {

fn decode_place(s: &[u8]) -> (r: Option<SerializableTermChar>)
    ensures
        match r {
            Some(p) => record(UpdateView::TermChar(p)) == s@,
            None => forall|p: SerializableTermChar| record(UpdateView::TermChar(p)) != s@,
        },
{
    if s.len() != 80 || s[0] != 80 || s[1] != 32 {
        proof {
            assert forall|p: SerializableTermChar| record(UpdateView::TermChar(p)) != s@ by {
                lemma_place_record_layout(p);
            }
        }
        return None;
    }
    let r = parse_place_body(s, 2);
    proof {
        assert forall|p: SerializableTermChar| record(UpdateView::TermChar(p)) == s@ <==> place_body(p) == s@.subrange(2, 80) by {
            lemma_place_record_layout(p);
            if place_body(p) == s@.subrange(2, 80) {
                assert(record(UpdateView::TermChar(p)) =~= s@);
            }
        }
    }
    r
}

fn decode_erase(s: &[u8]) -> (r: Option<SerializableErase>)
    ensures
        match r {
            Some(e) => record(UpdateView::Erase(e)) == s@,
            None => forall|e: SerializableErase| record(UpdateView::Erase(e)) != s@,
        },
{
    let key_y: [u8; 1] = [121];
    assert(key_y@ =~= name_y());
    if s.len() != ERASE_LEN || s[0] != 69 || s[1] != 32 || s[2] != 120 || s[3] != 61 || !is_key(s, 12, &key_y) {
        proof {
            assert forall|e: SerializableErase| record(UpdateView::Erase(e)) != s@ by {
                lemma_erase_record_layout(e);
            }
        }
        return None;
    }
    let x = parse_hex8(s, 4);
    let y = parse_hex8(s, 15);
    match (x, y) {
        (Some(xv), Some(yv)) => {
            let e = SerializableErase { abs_x: unbias(xv), abs_y: unbias(yv) };
            proof {
                lemma_erase_record_layout(e);
                let t = record(UpdateView::Erase(e));
                assert forall|i: int| 0 <= i < ERASE_LEN implies #[trigger] t[i] == s@[i] by {
                    if 4 <= i < 12 {
                        assert(t[i] == t.subrange(4, 12)[i - 4]);
                        assert(s@[i] == s@.subrange(4, 12)[i - 4]);
                    } else if 12 <= i < 15 {
                        assert(t[i] == t.subrange(12, 15)[i - 12]);
                        assert(s@[i] == s@.subrange(12, 15)[i - 12]);
                    } else if 15 <= i {
                        assert(t[i] == t.subrange(15, 23)[i - 15]);
                        assert(s@[i] == s@.subrange(15, 23)[i - 15]);
                    }
                }
                assert(t =~= s@);
            }
            Some(e)
        },
        _ => {
            proof {
                assert forall|e: SerializableErase| record(UpdateView::Erase(e)) != s@ by {
                    lemma_erase_record_layout(e);
                }
            }
            None
        },
    }
}

#[verifier::rlimit(40)]
fn decode_sync(s: &[u8]) -> (r: Option<Vec<SerializableTermChar>>)
    ensures
        match r {
            Some(items) => record(UpdateView::Sync(items@)) == s@ && items@.len() <= u32::MAX,
            None => forall|items: Seq<SerializableTermChar>| encodable(UpdateView::Sync(items))
                ==> record(UpdateView::Sync(items)) != s@,
        },
{
    if s.len() < SYNC_HEAD_LEN || s[0] != 83 || s[1] != 32 || s[2] != 110 || s[3] != 61 {
        proof {
            assert forall|items: Seq<SerializableTermChar>| encodable(UpdateView::Sync(items))
                implies record(UpdateView::Sync(items)) != s@ by {
                lemma_sync_record_layout(items);
            }
        }
        return None;
    }
    let n = match parse_hex8(s, 4) {
        Some(n) => n,
        None => {
            proof {
                assert forall|items: Seq<SerializableTermChar>| encodable(UpdateView::Sync(items))
                    implies record(UpdateView::Sync(items)) != s@ by {
                    lemma_sync_record_layout(items);
                }
            }
            return None;
        },
    };
    if (s.len() - SYNC_HEAD_LEN) as u64 != 79 * (n as u64) {
        proof {
            assert forall|items: Seq<SerializableTermChar>| encodable(UpdateView::Sync(items))
                implies record(UpdateView::Sync(items)) != s@ by {
                lemma_sync_record_layout(items);
                if record(UpdateView::Sync(items)) == s@ {
                    lemma_hex8_injective(n, items.len() as u32);
                }
            }
        }
        return None;
    }
    let ghost bodies = s@.subrange(12, s@.len() as int);
    let mut items: Vec<SerializableTermChar> = Vec::new();
    let mut k: usize = 0;
    while k < n as usize
        invariant
            0 <= k <= n,
            s@.len() == SYNC_HEAD_LEN + 79 * n,
            s@.len() == s.len(),
            bodies == s@.subrange(12, s@.len() as int),
            items@.len() == k,
            sync_bodies(items@) == bodies.subrange(0, 79 * k),
            s@.subrange(4, 12) == hex8(n),
            s@[0] == 83u8 && s@[1] == 32u8 && s@[2] == 110u8 && s@[3] == 61u8,
        decreases n - k,
    {
        let at: usize = SYNC_HEAD_LEN + 79 * k;
        let sp = s[at] == 32;
        let p = parse_place_body(s, at + 1);
        proof {
            assert(bodies.subrange(79 * k, 79 * k + 79) =~= s@.subrange(at as int, at + 79));
            assert(s@.subrange(at + 1, at + 79) =~= s@.subrange(at as int, at + 79).subrange(1, 79));
        }
        match p {
            Some(pv) if sp => {
                let ghost before = items@;
                items.push(pv);
                proof {
                    assert(items@.drop_last() =~= before);
                    assert(s@.subrange(at as int, at + 79) =~= seq![32u8] + place_body(pv));
                    assert(bodies.subrange(0, 79 * (k + 1)) =~= bodies.subrange(0, 79 * k) + bodies.subrange(79 * k, 79 * k + 79));
                    assert(sync_bodies(items@) =~= bodies.subrange(0, 79 * (k + 1)));
                }
            },
            _ => {
                proof {
                    assert forall|other: Seq<SerializableTermChar>| encodable(UpdateView::Sync(other))
                        implies record(UpdateView::Sync(other)) != s@ by {
                        lemma_sync_record_layout(other);
                        if record(UpdateView::Sync(other)) == s@ {
                            lemma_hex8_injective(n, other.len() as u32);
                            lemma_sync_bodies_layout(other);
                            assert(sync_bodies(other) == bodies);
                            let chunk = sync_bodies(other).subrange(79 * k, 79 * k + 79);
                            assert(chunk == seq![32u8] + place_body(other[k as int]));
                            assert(chunk[0] == 32u8);
                            assert(chunk.subrange(1, 79) =~= place_body(other[k as int]));
                        }
                    }
                }
                return None;
            },
        }
        k += 1;
    }
    proof {
        assert(bodies.subrange(0, 79 * n) =~= bodies);
        lemma_sync_record_layout(items@);
        let t = record(UpdateView::Sync(items@));
        assert(t.subrange(12, s@.len() as int) == bodies);
        assert forall|i: int| 0 <= i < s@.len() implies #[trigger] t[i] == s@[i] by {
            if 4 <= i < 12 {
                assert(t[i] == t.subrange(4, 12)[i - 4]);
                assert(s@[i] == s@.subrange(4, 12)[i - 4]);
            } else if 12 <= i {
                assert(t[i] == t.subrange(12, s@.len() as int)[i - 12]);
                assert(s@[i] == bodies[i - 12]);
            }
        }
        assert(t =~= s@);
    }
    Some(items)
}

/// The update held by one record (without its line terminator), or `None`
/// when the bytes are not the record of any update.
pub fn decode_record(s: &[u8]) -> (r: Option<Update>)
    ensures
        match r {
            Some(u) => decoded(s@) == Some(u@),
            None => decoded(s@) is None,
        },
{
    let r = if s.len() == 0 {
        None
    } else if s[0] == 80 {
        match decode_place(s) {
            Some(p) => Some(Update::TermChar(p)),
            None => None,
        }
    } else if s[0] == 69 {
        match decode_erase(s) {
            Some(e) => Some(Update::Erase(e)),
            None => None,
        }
    } else if s[0] == 83 {
        match decode_sync(s) {
            Some(items) => Some(Update::Sync(SerializableSync { items })),
            None => None,
        }
    } else {
        None
    };
    proof {
        match &r {
            Some(u) => {
                lemma_round_trip(u@);
            },
            None => {
                assert forall|v: UpdateView| encodable(v) implies record(v) != s@ by {
                    lemma_record_layout(v);
                    match v {
                        UpdateView::TermChar(p) => {},
                        UpdateView::Erase(e) => {},
                        UpdateView::Sync(items) => {},
                    }
                }
            },
        }
    }
    r
}

} // verus!

verus! {

/// The finished lines of `s` and the unfinished tail after its last newline.
pub open spec fn split_lines(s: Seq<u8>) -> (Seq<Seq<u8>>, Seq<u8>)
    decreases s.len(),
{
    if s.len() == 0 {
        (seq![], seq![])
    } else {
        let (done, cur) = split_lines(s.drop_last());
        if s.last() == 10 {
            (done.push(cur), seq![])
        } else {
            (done, cur.push(s.last()))
        }
    }
}

/// The records in a chunk of wire bytes: each newline ends one, and a
/// non-empty tail without a newline counts as one more.
pub open spec fn records_of(s: Seq<u8>) -> Seq<Seq<u8>> {
    let (done, cur) = split_lines(s);
    if cur.len() == 0 { done } else { done.push(cur) }
}

pub open spec fn byte_rows(v: Seq<Vec<u8>>) -> Seq<Seq<u8>> {
    v.map_values(|r: Vec<u8>| r@)
}

/// Splits a chunk of wire bytes into records, dropping the terminators.
pub fn split_records(chunk: &[u8]) -> (r: Vec<Vec<u8>>)
    ensures
        byte_rows(r@) == records_of(chunk@),
{
    let mut done: Vec<Vec<u8>> = Vec::new();
    let mut cur: Vec<u8> = Vec::new();
    let mut i: usize = 0;
    while i < chunk.len()
        invariant
            0 <= i <= chunk@.len(),
            (byte_rows(done@), cur@) == split_lines(chunk@.take(i as int)),
        decreases chunk@.len() - i,
    {
        assert(chunk@.take(i + 1).drop_last() =~= chunk@.take(i as int));
        let b = chunk[i];
        if b == 10 {
            let mut line: Vec<u8> = Vec::new();
            std::mem::swap(&mut line, &mut cur);
            let ghost before = done@;
            done.push(line);
            assert(byte_rows(done@) =~= byte_rows(before).push(line@));
        } else {
            cur.push(b);
        }
        i += 1;
    }
    assert(chunk@.take(i as int) =~= chunk@);
    if cur.len() > 0 {
        let ghost before = done@;
        done.push(cur);
        assert(byte_rows(done@) =~= byte_rows(before).push(cur@));
    }
    done
}

} // verus!

verus! {

pub open spec fn no_newline(s: Seq<u8>) -> bool {
    forall|i: int| 0 <= i < s.len() ==> #[trigger] s[i] != 10
}

proof fn lemma_no_newline_concat(a: Seq<u8>, b: Seq<u8>)
    requires
        no_newline(a),
        no_newline(b),
    ensures
        no_newline(a + b),
{
    assert forall|i: int| 0 <= i < (a + b).len() implies #[trigger] (a + b)[i] != 10 by {
        if i < a.len() {
            assert((a + b)[i] == a[i]);
        } else {
            assert((a + b)[i] == b[i - a.len()]);
        }
    }
}

proof fn lemma_hex_no_newline(v: u32, w: u8)
    ensures
        no_newline(hex8(v)),
        no_newline(hex2(w)),
{
    lemma_nibbles(v);
}

proof fn lemma_place_body_no_newline(p: SerializableTermChar)
    ensures
        no_newline(place_body(p)),
{
    lemma_hex_no_newline(biased(p.abs_x), p.foreground_color);
    lemma_hex_no_newline(biased(p.abs_y), p.background_color);
    lemma_hex_no_newline(p.character as u32, 0);
    let s1 = seq![120u8, 61u8] + hex8(biased(p.abs_x));
    lemma_no_newline_concat(seq![120u8, 61u8], hex8(biased(p.abs_x)));
    let s2 = s1 + key(name_y());
    lemma_no_newline_concat(s1, key(name_y()));
    let s3 = s2 + hex8(biased(p.abs_y));
    lemma_no_newline_concat(s2, hex8(biased(p.abs_y)));
    let s4 = s3 + key(name_character());
    lemma_no_newline_concat(s3, key(name_character()));
    let s5 = s4 + hex8(p.character as u32);
    lemma_no_newline_concat(s4, hex8(p.character as u32));
    let s6 = s5 + key(name_fg_index());
    lemma_no_newline_concat(s5, key(name_fg_index()));
    let s7 = s6 + hex2(p.foreground_color);
    lemma_no_newline_concat(s6, hex2(p.foreground_color));
    let s8 = s7 + key(name_bg_index());
    lemma_no_newline_concat(s7, key(name_bg_index()));
    let s9 = s8 + hex2(p.background_color);
    lemma_no_newline_concat(s8, hex2(p.background_color));
    let s10 = s9 + key(name_transparent());
    lemma_no_newline_concat(s9, key(name_transparent()));
    lemma_no_newline_concat(s10, seq![flag_byte(p.empty)]);
}

proof fn lemma_sync_bodies_no_newline(items: Seq<SerializableTermChar>)
    ensures
        no_newline(sync_bodies(items)),
    decreases items.len(),
{
    if items.len() > 0 {
        lemma_sync_bodies_no_newline(items.drop_last());
        lemma_place_body_no_newline(items.last());
        lemma_no_newline_concat(sync_bodies(items.drop_last()), seq![32u8]);
        lemma_no_newline_concat(sync_bodies(items.drop_last()) + seq![32u8], place_body(items.last()));
    }
}

/// No record holds the line terminator.
pub proof fn lemma_record_no_newline(u: UpdateView)
    ensures
        no_newline(record(u)),
{
    match u {
        UpdateView::TermChar(p) => {
            lemma_place_body_no_newline(p);
            lemma_no_newline_concat(seq![80u8, 32u8], place_body(p));
        },
        UpdateView::Erase(e) => {
            lemma_hex_no_newline(biased(e.abs_x), 0);
            lemma_hex_no_newline(biased(e.abs_y), 0);
            let a = seq![69u8, 32u8, 120u8, 61u8];
            lemma_no_newline_concat(a, hex8(biased(e.abs_x)));
            lemma_no_newline_concat(a + hex8(biased(e.abs_x)), key(name_y()));
            lemma_no_newline_concat(a + hex8(biased(e.abs_x)) + key(name_y()), hex8(biased(e.abs_y)));
        },
        UpdateView::Sync(items) => {
            lemma_hex_no_newline(items.len() as u32, 0);
            lemma_sync_bodies_no_newline(items);
            let a = seq![83u8, 32u8, 110u8, 61u8];
            lemma_no_newline_concat(a, hex8(items.len() as u32));
            lemma_no_newline_concat(a + hex8(items.len() as u32), sync_bodies(items));
        },
    }
}

proof fn lemma_split_without_newline(s: Seq<u8>)
    requires
        no_newline(s),
    ensures
        split_lines(s) == (Seq::<Seq<u8>>::empty(), s),
    decreases s.len(),
{
    if s.len() > 0 {
        lemma_split_without_newline(s.drop_last());
        assert(s.drop_last().push(s.last()) =~= s);
    }
}

/// The wire bytes of an update split back into exactly its record, which
/// decodes to the update: encoding then decoding reproduces every field.
pub proof fn lemma_wire_round_trip(u: UpdateView)
    requires
        encodable(u),
    ensures
        records_of(record(u).push(10)) == seq![record(u)],
        decoded(record(u)) == Some(u),
{
    lemma_record_no_newline(u);
    lemma_split_without_newline(record(u));
    let s = record(u).push(10);
    assert(s.drop_last() =~= record(u));
    assert(split_lines(s) == (seq![record(u)], Seq::<u8>::empty()));
    lemma_round_trip(u);
}

} // verus!
