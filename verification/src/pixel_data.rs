//! One compiled pixel command, and the color quantizer that picks the
//! nearest palette color for it.
//!
//! A `PixelData` holds an absolute canvas coordinate and a quantized
//! palette color; `get_json` serializes it to the wire form the remote
//! canvas expects. The quantizer measures colors by the sum of absolute
//! per-channel differences (L1 distance) and breaks ties by palette
//! declaration order.

use vstd::prelude::*;
use crate::pixel_color::{PixelColor, palette, color_code, color_channels};

verus! {

/// The absolute difference of two channel values.
pub open spec fn abs_diff(a: u8, b: u8) -> nat {
    if a >= b {
        (a - b) as nat
    } else {
        (b - a) as nat
    }
}

/// The sum of absolute differences of the first `n` channel pairs.
pub open spec fn l1_prefix(c1: Seq<u8>, c2: Seq<u8>, n: int) -> nat
    decreases n,
{
    if n <= 0 {
        0
    } else {
        l1_prefix(c1, c2, n - 1) + abs_diff(c1[n - 1], c2[n - 1])
    }
}

/// The L1 distance of two channel sequences: the sum of absolute
/// differences over the channels both sequences have.
pub open spec fn l1_dist(c1: Seq<u8>, c2: Seq<u8>) -> nat {
    l1_prefix(c1, c2, if c1.len() <= c2.len() { c1.len() as int } else { c2.len() as int })
}

/// The L1 distance between a palette color and an input channel
/// sequence: the quantizer's measure of how far a candidate is from
/// the input.
pub open spec fn cand_dist(c: PixelColor, channels: Seq<u8>) -> nat {
    l1_dist(color_channels(c), channels)
}

/// The candidate set the quantizer compares against: the four
/// achromatic colors in grayscale mode, the whole palette otherwise.
/// The order is palette declaration order; it decides ties.
pub open spec fn candidate_colors(grayscale: bool) -> Seq<PixelColor> {
    if grayscale {
        seq![PixelColor::White, PixelColor::LightGray, PixelColor::Gray, PixelColor::Black]
    } else {
        palette()
    }
}

/// The index of the first candidate among `cs[0..n]` whose distance to
/// `channels` is minimal.
pub open spec fn first_min_index(cs: Seq<PixelColor>, channels: Seq<u8>, n: int) -> int
    decreases n,
{
    if n <= 1 {
        0
    } else {
        let p = first_min_index(cs, channels, n - 1);
        if cand_dist(cs[n - 1], channels) < cand_dist(cs[p], channels) {
            n - 1
        } else {
            p
        }
    }
}

/// The color the quantizer returns for an input channel sequence: the
/// earliest candidate at minimal L1 distance.
pub open spec fn quantize_spec(channels: Seq<u8>, grayscale: bool) -> PixelColor {
    let cs = candidate_colors(grayscale);
    cs[first_min_index(cs, channels, cs.len() as int)]
}

proof fn lemma_first_min_index(cs: Seq<PixelColor>, channels: Seq<u8>, n: int)
    requires
        1 <= n <= cs.len(),
    ensures
        0 <= first_min_index(cs, channels, n) < n,
        forall|j: int|
            0 <= j < n ==> #[trigger] cand_dist(cs[j], channels) >= cand_dist(
                cs[first_min_index(cs, channels, n)],
                channels,
            ),
        forall|j: int|
            0 <= j < first_min_index(cs, channels, n) ==> #[trigger] cand_dist(cs[j], channels) > cand_dist(
                cs[first_min_index(cs, channels, n)],
                channels,
            ),
    decreases n,
{
    if n > 1 {
        lemma_first_min_index(cs, channels, n - 1);
    }
}

/// Law: for every input, the quantizer's result is a member of the
/// active candidate set whose L1 distance to the input is minimal
/// among all candidates, and every candidate declared earlier has a
/// strictly larger distance (ties resolve to the earliest candidate).
pub proof fn lemma_quantizer_minimal(channels: Seq<u8>, grayscale: bool)
    ensures
        ({
            let cs = candidate_colors(grayscale);
            let i = first_min_index(cs, channels, cs.len() as int);
            &&& 0 <= i < cs.len()
            &&& quantize_spec(channels, grayscale) == cs[i]
            &&& forall|j: int|
                0 <= j < cs.len() ==> #[trigger] cand_dist(cs[j], channels) >= cand_dist(cs[i], channels)
            &&& forall|j: int|
                0 <= j < i ==> #[trigger] cand_dist(cs[j], channels) > cand_dist(cs[i], channels)
        }),
{
    let cs = candidate_colors(grayscale);
    lemma_first_min_index(cs, channels, cs.len() as int);
}

/// Law: grayscale mode restricts the candidate set to exactly the four
/// achromatic palette entries, in palette order; otherwise every one
/// of the 16 palette entries is a candidate, in palette order.
pub proof fn lemma_candidate_sets()
    ensures
        candidate_colors(true) == seq![
            PixelColor::White,
            PixelColor::LightGray,
            PixelColor::Gray,
            PixelColor::Black,
        ],
        candidate_colors(false) == palette(),
        palette().len() == 16,
{
}

/// The character of a single decimal digit value.
pub open spec fn dec_digit(d: int) -> char {
    if d == 0 {
        '0'
    } else if d == 1 {
        '1'
    } else if d == 2 {
        '2'
    } else if d == 3 {
        '3'
    } else if d == 4 {
        '4'
    } else if d == 5 {
        '5'
    } else if d == 6 {
        '6'
    } else if d == 7 {
        '7'
    } else if d == 8 {
        '8'
    } else {
        '9'
    }
}

/// The decimal digits of a non-negative integer, most significant
/// first and without leading zeros (a single `'0'` for zero).
pub open spec fn dec_digits(n: int) -> Seq<char>
    decreases n,
{
    if n <= 9 {
        seq![dec_digit(n)]
    } else {
        dec_digits(n / 10).push(dec_digit(n % 10))
    }
}

/// The decimal representation of an integer, with a leading `'-'` for
/// negative values.
pub open spec fn dec_str(v: int) -> Seq<char> {
    if v < 0 {
        seq!['-'] + dec_digits(-v)
    } else {
        dec_digits(v)
    }
}

/// The JSON string literal (opening quote, escaped text, closing
/// quote) encoding a piece of text.
pub uninterp spec fn json_quoted(s: Seq<char>) -> Seq<char>;

/// The one-character string of a decimal digit value.
fn digit_str(d: u64) -> (r: &'static str)
    requires
        d <= 9,
    ensures
        r@ == seq![dec_digit(d as int)],
{
    let r: &'static str = match d {
        0 => "0",
        1 => "1",
        2 => "2",
        3 => "3",
        4 => "4",
        5 => "5",
        6 => "6",
        7 => "7",
        8 => "8",
        _ => "9",
    };
    proof {
        reveal_strlit("0");
        reveal_strlit("1");
        reveal_strlit("2");
        reveal_strlit("3");
        reveal_strlit("4");
        reveal_strlit("5");
        reveal_strlit("6");
        reveal_strlit("7");
        reveal_strlit("8");
        reveal_strlit("9");
        assert(r@ =~= seq![dec_digit(d as int)]);
    }
    r
}

/// Appends the decimal digits of `v`, most significant first.
fn push_digits(s: &mut String, v: u64)
    ensures
        final(s)@ == old(s)@ + dec_digits(v as int),
    decreases v,
{
    if v <= 9 {
        push_str(s, digit_str(v));
        assert(s@ =~= old(s)@ + dec_digits(v as int));
    } else {
        push_digits(s, v / 10);
        push_str(s, digit_str(v % 10));
        assert(s@ =~= old(s)@ + dec_digits(v as int));
    }
}

/// The decimal representation of an integer, with a leading `'-'` for
/// negative values. The smallest `i64` is excluded only because its
/// magnitude has no `i64` form.
fn int_to_string(v: i64) -> (r: String)
    requires
        v > i64::MIN,
    ensures
        r@ == dec_str(v as int),
{
    let mut s = String::new();
    if v < 0 {
        push_str(&mut s, "-");
        let m: u64 = (-v) as u64;
        push_digits(&mut s, m);
        proof {
            reveal_strlit("-");
            assert(s@ =~= dec_str(v as int));
        }
    } else {
        push_digits(&mut s, v as u64);
    }
    s
}

/// Relies on `serde_json::to_string` applied to a `&str`: it returns
/// the JSON string literal encoding the text, which depends on the
/// text alone, and it cannot fail for a string value.
#[verifier::external_body]
fn json_quote(s: &str) -> (r: String)
    ensures
        r@ == json_quoted(s@),
{
    match serde_json::to_string(s) {
        Ok(r) => r,
        Err(_) => String::new(),
    }
}

/// Relies on std's `String::push_str`: it appends the given text to
/// the end of the string.
#[verifier::external_body]
fn push_str(s: &mut String, t: &str)
    ensures
        final(s)@ == old(s)@ + t@,
{
    s.push_str(t);
}

/// The wire form of one command: a JSON object with the absolute
/// coordinates, the derived field `a = x + y + 8` the remote protocol
/// demands, the palette code, the caller's fingerprint verbatim, and a
/// null token.
pub open spec fn wire_json(x: int, y: int, color: int, fp: Seq<char>) -> Seq<char> {
    "{\"x\":"@ + dec_str(x) + ",\"y\":"@ + dec_str(y) + ",\"a\":"@ + dec_str(x + y + 8)
        + ",\"color\":"@ + dec_str(color) + ",\"fingerprint\":"@ + json_quoted(fp)
        + ",\"token\":null}"@
}

/// One "place pixel" command: an absolute canvas coordinate and the
/// quantized palette color to put there.
#[derive(Debug, Hash, PartialEq, Eq, Structural)]
pub struct PixelData {
    pub x: i32,
    pub y: i32,
    pub color: PixelColor,
}

/// An RGB sample, alpha already stripped.
#[derive(Copy, Clone, Debug, PartialEq, Eq, Structural)]
pub struct Rgb {
    pub r: u8,
    pub g: u8,
    pub b: u8,
}

/// The channel sequence of an RGB sample.
pub open spec fn rgb_channels(p: Rgb) -> Seq<u8> {
    seq![p.r, p.g, p.b]
}

impl PixelData {
    /// Builds the command for the pixel at absolute coordinate
    /// `(x, y)`, quantizing the sample to the nearest palette color.
    pub fn from_rgb8(x: i32, y: i32, pixel: &Rgb, grayscale: bool) -> (r: Self)
        ensures
            r == (PixelData { x, y, color: quantize_spec(rgb_channels(*pixel), grayscale) }),
    {
        let channels = vec![pixel.r, pixel.g, pixel.b];
        assert(channels@ =~= rgb_channels(*pixel));
        let color = PixelData::pixel_color_from_channels(channels.as_slice(), grayscale);
        PixelData { x, y, color }
    }

    /// The nearest candidate color to the given channels under the L1
    /// distance, ties broken by palette declaration order.
    pub fn pixel_color_from_channels(channels: &[u8], grayscale: bool) -> (r: PixelColor)
        ensures
            r == quantize_spec(channels@, grayscale),
    {
        let cands: Vec<PixelColor> = if grayscale {
            let v = vec![
                PixelColor::White,
                PixelColor::LightGray,
                PixelColor::Gray,
                PixelColor::Black,
            ];
            assert(v@ =~= candidate_colors(true));
            v
        } else {
            PixelColor::all()
        };
        let ghost cs = candidate_colors(grayscale);
        let mut best_i: usize = 0;
        let mut best: PixelColor = cands[0];
        let first_chan = best.get_channels();
        let mut best_d: u64 = PixelData::get_color_diff(first_chan.as_slice(), channels);
        let mut k: usize = 1;
        while k < cands.len()
            invariant
                cands@ == cs,
                1 <= k <= cs.len(),
                best_i < k,
                best_i as int == first_min_index(cs, channels@, k as int),
                best == cs[best_i as int],
                best_d as nat == cand_dist(cs[best_i as int], channels@),
            decreases cands@.len() - k,
        {
            let c = cands[k];
            let chan = c.get_channels();
            let d = PixelData::get_color_diff(chan.as_slice(), channels);
            if d < best_d {
                best_i = k;
                best = c;
                best_d = d;
            }
            k += 1;
        }
        best
    }

    /// The L1 distance between two channel slices, summed over the
    /// channels both slices have. The bound in the precondition keeps
    /// the sum within `u64`.
    pub fn get_color_diff(c1: &[u8], c2: &[u8]) -> (r: u64)
        requires
            (if c1@.len() <= c2@.len() {
                c1@.len()
            } else {
                c2@.len()
            }) * 255 <= u64::MAX,
        ensures
            r as nat == l1_dist(c1@, c2@),
    {
        let n: usize = if c1.len() <= c2.len() {
            c1.len()
        } else {
            c2.len()
        };
        let mut acc: u64 = 0;
        let mut i: usize = 0;
        while i < n
            invariant
                i <= n,
                n <= c1@.len() && n <= c2@.len(),
                n * 255 <= u64::MAX,
                acc as nat == l1_prefix(c1@, c2@, i as int),
                acc <= i * 255,
            decreases n - i,
        {
            let a = c1[i];
            let b = c2[i];
            let d: u64 = if a >= b {
                (a - b) as u64
            } else {
                (b - a) as u64
            };
            assert((i + 1) * 255 <= n * 255) by (nonlinear_arith)
                requires i + 1 <= n;
            acc = acc + d;
            i += 1;
        }
        acc
    }

    /// Serializes the command to its wire form, carrying the caller's
    /// fingerprint verbatim. The derived field `a` equals `x + y + 8`
    /// for the command's coordinates.
    pub fn get_json(self, fingerprint: &str) -> (r: String)
        ensures
            r@ == wire_json(self.x as int, self.y as int, color_code(self.color), fingerprint@),
    {
        let a: i64 = self.x as i64 + self.y as i64 + 8;
        let mut s = String::new();
        push_str(&mut s, "{\"x\":");
        let xs = int_to_string(self.x as i64);
        push_str(&mut s, xs.as_str());
        push_str(&mut s, ",\"y\":");
        let ys = int_to_string(self.y as i64);
        push_str(&mut s, ys.as_str());
        push_str(&mut s, ",\"a\":");
        let a_s = int_to_string(a);
        push_str(&mut s, a_s.as_str());
        push_str(&mut s, ",\"color\":");
        let c_s = int_to_string(self.color.code() as i64);
        push_str(&mut s, c_s.as_str());
        push_str(&mut s, ",\"fingerprint\":");
        let f_s = json_quote(fingerprint);
        push_str(&mut s, f_s.as_str());
        push_str(&mut s, ",\"token\":null}");
        assert(s@ =~= wire_json(self.x as int, self.y as int, color_code(self.color), fingerprint@));
        s
    }
}

} // verus!
