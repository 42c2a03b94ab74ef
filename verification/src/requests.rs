//! The image-to-command compiler and the partitioner.
//!
//! `get_requests` walks a decoded RGBA grid in row-major order, applies
//! the optional invert and grayscale transforms, drops fully
//! transparent pixels, quantizes the rest, serializes each to its wire
//! form, and applies the optional shuffle and reverse reorderings.
//! `partition` then splits the command list into one contiguous chunk
//! per worker.

use vstd::prelude::*;
use vstd::arithmetic::mul::lemma_mul_inequality;
use crate::pixel_color::color_code;
use crate::pixel_data::{PixelData, Rgb, quantize_spec, wire_json};

verus! {

/// The run's error taxonomy. `ImageNotFound` and `InvalidWorkerCount`
/// are fatal and abort before any request is sent; `RequestFailed`
/// covers one command's network error, non-success status or timeout
/// and never stops a worker; `JoinFailure` is a worker ending
/// abnormally for any other reason.
#[derive(Copy, Clone, Debug, PartialEq, Eq, Structural)]
pub enum AppError {
    ImageNotFound,
    InvalidWorkerCount,
    RequestFailed,
    JoinFailure,
}

/// One RGBA sample of the decoded image.
#[derive(Copy, Clone, Debug, PartialEq, Eq, Structural)]
pub struct Rgba {
    pub r: u8,
    pub g: u8,
    pub b: u8,
    pub a: u8,
}

/// A decoded image: its dimensions and its samples in row-major order
/// (y outer, x inner, zero-based from the top-left).
pub struct PixelGrid {
    pub width: usize,
    pub height: usize,
    pub pixels: Vec<Rgba>,
}

impl PixelGrid {
    /// A grid is well formed when it holds exactly one sample per
    /// coordinate.
    pub open spec fn wf(self) -> bool {
        self.pixels@.len() == self.width * self.height
    }
}

/// A pixel with every color channel inverted; alpha is untouched.
pub open spec fn inverted(p: Rgba) -> Rgba {
    Rgba { r: (255 - p.r) as u8, g: (255 - p.g) as u8, b: (255 - p.b) as u8, a: p.a }
}

/// The luminance the grayscale conversion assigns to an RGB triple.
pub uninterp spec fn luma_of(r: u8, g: u8, b: u8) -> u8;

/// A pixel converted to grayscale: every color channel holds the
/// luminance; alpha is untouched.
pub open spec fn grayed(p: Rgba) -> Rgba {
    let l = luma_of(p.r, p.g, p.b);
    Rgba { r: l, g: l, b: l, a: p.a }
}

/// The color transforms applied to one pixel: invert first, then
/// grayscale, each only if its flag is set.
pub open spec fn transformed(p: Rgba, invert: bool, grayscale: bool) -> Rgba {
    let q = if invert {
        inverted(p)
    } else {
        p
    };
    if grayscale {
        grayed(q)
    } else {
        q
    }
}

/// Relies on the image crate's `Pixel::to_luma` for `Rgb<u8>`: the
/// luminance it computes depends on the three channels alone.
#[verifier::external_body]
fn to_luma(r: u8, g: u8, b: u8) -> (l: u8)
    ensures
        l == luma_of(r, g, b),
{
    image::Pixel::to_luma(&image::Rgb([r, g, b])).0[0]
}

/// The wire command compiled for one visible transformed pixel at
/// absolute coordinate `(x, y)`.
pub open spec fn command_for(p: Rgba, x: int, y: int, grayscale: bool, fp: Seq<char>) -> Seq<
    char,
> {
    wire_json(x, y, color_code(quantize_spec(seq![p.r, p.g, p.b], grayscale)), fp)
}

/// The commands compiled from the first `k` samples of a row-major
/// pixel sequence: transformed, filtered on alpha, quantized and
/// serialized, in enumeration order.
pub open spec fn compiled_prefix(
    px: Seq<Rgba>,
    w: int,
    xo: int,
    yo: int,
    invert: bool,
    grayscale: bool,
    fp: Seq<char>,
    k: int,
) -> Seq<Seq<char>>
    decreases k,
{
    if k <= 0 {
        Seq::empty()
    } else {
        let prev = compiled_prefix(px, w, xo, yo, invert, grayscale, fp, k - 1);
        let q = transformed(px[k - 1], invert, grayscale);
        if q.a > 0 {
            prev.push(command_for(q, (k - 1) % w + xo, (k - 1) / w + yo, grayscale, fp))
        } else {
            prev
        }
    }
}

/// The full command list compiled from a grid, before any reordering.
pub open spec fn compiled(
    grid: PixelGrid,
    xo: int,
    yo: int,
    invert: bool,
    grayscale: bool,
    fp: Seq<char>,
) -> Seq<Seq<char>> {
    compiled_prefix(
        grid.pixels@,
        grid.width as int,
        xo,
        yo,
        invert,
        grayscale,
        fp,
        grid.pixels@.len() as int,
    )
}

/// The count of pixels with non-zero alpha among the first `k`.
pub open spec fn visible_count(px: Seq<Rgba>, k: int) -> int
    decreases k,
{
    if k <= 0 {
        0
    } else {
        visible_count(px, k - 1) + if px[k - 1].a > 0 {
            1int
        } else {
            0int
        }
    }
}

proof fn lemma_compiled_prefix_len(
    px: Seq<Rgba>,
    w: int,
    xo: int,
    yo: int,
    invert: bool,
    grayscale: bool,
    fp: Seq<char>,
    k: int,
)
    ensures
        compiled_prefix(px, w, xo, yo, invert, grayscale, fp, k).len() == visible_count(px, k),
    decreases k,
{
    if k > 0 {
        lemma_compiled_prefix_len(px, w, xo, yo, invert, grayscale, fp, k - 1);
    }
}

/// Law: the compiled command list has exactly one command per pixel
/// with non-zero alpha; fully transparent pixels produce none. Neither
/// transform changes a pixel's alpha, so the count is over the raw
/// samples.
pub proof fn lemma_command_count(
    grid: PixelGrid,
    xo: int,
    yo: int,
    invert: bool,
    grayscale: bool,
    fp: Seq<char>,
)
    ensures
        compiled(grid, xo, yo, invert, grayscale, fp).len() == visible_count(
            grid.pixels@,
            grid.pixels@.len() as int,
        ),
{
    lemma_compiled_prefix_len(
        grid.pixels@,
        grid.width as int,
        xo,
        yo,
        invert,
        grayscale,
        fp,
        grid.pixels@.len() as int,
    );
}

/// The views of a sequence of owned strings.
pub open spec fn views(s: Seq<String>) -> Seq<Seq<char>> {
    s.map_values(|x: String| x@)
}

/// The offsets keep every absolute coordinate of the grid within
/// `i32`.
pub open spec fn coords_fit(w: int, h: int, xo: int, yo: int) -> bool {
    w * h == 0 || {
        &&& i32::MIN <= xo
        &&& xo + w - 1 <= i32::MAX
        &&& i32::MIN <= yo
        &&& yo + h - 1 <= i32::MAX
    }
}

/// Relies on rand's `SliceRandom::shuffle`: it permutes the elements
/// of the slice in place. Which permutation it picks depends on the
/// thread-local generator, so only what holds of every outcome is
/// stated: the multiset of commands is unchanged.
#[verifier::external_body]
fn shuffle_commands(v: &mut Vec<String>)
    ensures
        views(final(v)@).to_multiset() == views(old(v)@).to_multiset(),
        final(v)@.len() == old(v)@.len(),
{
    rand::seq::SliceRandom::shuffle(v.as_mut_slice(), &mut rand::thread_rng());
}

/// Reverses the command list in place. Applied after a shuffle this
/// yields exactly the reverse of whatever order the shuffle produced.
pub fn reverse_commands(v: &mut Vec<String>)
    ensures
        views(final(v)@) == views(old(v)@).reverse(),
        final(v)@.len() == old(v)@.len(),
{
    let n: usize = v.len();
    let mut out: Vec<String> = Vec::new();
    let mut i: usize = 0;
    while i < n
        invariant
            n == v@.len(),
            v@ == old(v)@,
            i <= n,
            out@.len() == i,
            forall|j: int| 0 <= j < i ==> #[trigger] out@[j]@ == v@[n - 1 - j]@,
        decreases n - i,
    {
        let s = v[n - 1 - i].clone();
        out.push(s);
        i += 1;
    }
    *v = out;
    assert(views(v@) =~= views(old(v)@).reverse());
}

/// Compiles a decoded image into its ordered command list and applies
/// the optional reorderings: the result is the compiled list itself,
/// its reverse, or (under shuffle) a permutation of it, reversed again
/// when both flags are set.
pub fn get_requests(
    grid: &PixelGrid,
    x_pos: i32,
    y_pos: i32,
    grayscale: bool,
    invert: bool,
    shuffle: bool,
    reverse: bool,
    fingerprint: &str,
) -> (r: Vec<String>)
    requires
        grid.wf(),
        coords_fit(grid.width as int, grid.height as int, x_pos as int, y_pos as int),
    ensures
        ({
            let base = compiled(
                *grid,
                x_pos as int,
                y_pos as int,
                invert,
                grayscale,
                fingerprint@,
            );
            &&& r@.len() == base.len()
            &&& r@.len() == visible_count(grid.pixels@, grid.pixels@.len() as int)
            &&& (!shuffle && !reverse) ==> views(r@) == base
            &&& (!shuffle && reverse) ==> views(r@) == base.reverse()
            &&& shuffle ==> views(r@).to_multiset() == base.to_multiset()
        }),
{
    let ghost base = compiled(*grid, x_pos as int, y_pos as int, invert, grayscale, fingerprint@);
    proof {
        lemma_command_count(*grid, x_pos as int, y_pos as int, invert, grayscale, fingerprint@);
    }
    let mut out: Vec<String> = Vec::new();
    let w: usize = grid.width;
    let n: usize = grid.pixels.len();
    let mut k: usize = 0;
    while k < n
        invariant
            grid.wf(),
            coords_fit(grid.width as int, grid.height as int, x_pos as int, y_pos as int),
            w == grid.width,
            n == grid.pixels@.len(),
            k <= n,
            views(out@) == compiled_prefix(
                grid.pixels@,
                w as int,
                x_pos as int,
                y_pos as int,
                invert,
                grayscale,
                fingerprint@,
                k as int,
            ),
        decreases n - k,
    {
        proof {
            assert(w * grid.height != 0);
            assert(w > 0 && grid.height > 0) by (nonlinear_arith)
                requires
                    w * grid.height != 0,
                    w >= 0,
                    grid.height >= 0,
            ;
            assert(0 <= (k as int % w as int) && (k as int % w as int) < w as int) by (nonlinear_arith)
                requires
                    w as int > 0,
                    k as int >= 0,
            ;
            assert(0 <= (k as int / w as int) && (k as int / w as int) < grid.height as int) by (nonlinear_arith)
                requires
                    w as int > 0,
                    grid.height as int > 0,
                    0 <= k as int,
                    (k as int) < (w as int) * (grid.height as int),
            ;
        }
        let p = grid.pixels[k];
        let q0 = if invert {
            Rgba { r: 255 - p.r, g: 255 - p.g, b: 255 - p.b, a: p.a }
        } else {
            p
        };
        let q = if grayscale {
            let l = to_luma(q0.r, q0.g, q0.b);
            Rgba { r: l, g: l, b: l, a: q0.a }
        } else {
            q0
        };
        assert(q == transformed(grid.pixels@[k as int], invert, grayscale));
        if q.a > 0 {
            let col: usize = k % w;
            let row: usize = k / w;
            assert(col as int + x_pos as int <= i32::MAX);
            assert(row as int + y_pos as int <= i32::MAX);
            let x: i32 = (col as i64 + x_pos as i64) as i32;
            let y: i32 = (row as i64 + y_pos as i64) as i32;
            let pd = PixelData::from_rgb8(x, y, &(Rgb { r: q.r, g: q.g, b: q.b }), grayscale);
            let s = pd.get_json(fingerprint);
            proof {
                assert(crate::pixel_data::rgb_channels(Rgb { r: q.r, g: q.g, b: q.b }) =~= seq![
                    q.r,
                    q.g,
                    q.b,
                ]);
            }
            let ghost prev = out@;
            out.push(s);
            assert(views(out@) =~= views(prev).push(s@));
        }
        k += 1;
    }
    assert(views(out@) == base);
    if shuffle {
        shuffle_commands(&mut out);
    }
    if reverse {
        let ghost pre = views(out@);
        reverse_commands(&mut out);
        proof {
            pre.lemma_reverse_to_multiset();
        }
    }
    out
}

/// The concatenation of a sequence of command chunks, in order.
pub open spec fn concat_all(parts: Seq<Seq<Seq<char>>>) -> Seq<Seq<char>>
    decreases parts.len(),
{
    if parts.len() == 0 {
        Seq::empty()
    } else {
        concat_all(parts.drop_last()) + parts.last()
    }
}

/// The views of every chunk of a chunk list.
pub open spec fn chunk_views(chunks: Seq<Vec<String>>) -> Seq<Seq<Seq<char>>> {
    chunks.map_values(|c: Vec<String>| views(c@))
}

proof fn lemma_concat_prefix(parts: Seq<Seq<Seq<char>>>, all: Seq<Seq<char>>, cs: int, m: int)
    requires
        0 <= m <= parts.len(),
        cs >= 0,
        m * cs <= all.len(),
        forall|i: int| 0 <= i < m ==> #[trigger] parts[i] == all.subrange(i * cs, (i + 1) * cs),
    ensures
        concat_all(parts.take(m)) == all.subrange(0, m * cs),
    decreases m,
{
    if m == 0 {
        assert(m * cs == 0) by (nonlinear_arith)
            requires m == 0;
        assert(concat_all(parts.take(m)) =~= all.subrange(0, m * cs));
    } else {
        lemma_mul_inequality(m - 1, m, cs);
        assert((m - 1) * cs + cs == m * cs) by (nonlinear_arith);
        lemma_concat_prefix(parts, all, cs, m - 1);
        assert(parts.take(m).drop_last() =~= parts.take(m - 1));
        assert(parts.take(m).last() == parts[m - 1]);
        assert(parts[m - 1] == all.subrange((m - 1) * cs, m * cs));
        assert(concat_all(parts.take(m)) == concat_all(parts.take(m - 1)) + parts[m - 1]);
        assert(all.subrange(0, (m - 1) * cs) + all.subrange((m - 1) * cs, m * cs) =~= all.subrange(
            0,
            m * cs,
        ));
        assert(concat_all(parts.take(m)) == all.subrange(0, (m - 1) * cs) + all.subrange(
            (m - 1) * cs,
            m * cs,
        ));
        assert(concat_all(parts.take(m)) == all.subrange(0, m * cs));
    }
}

/// Law: chunks that tile a command list as consecutive slices
/// reconstruct it exactly when concatenated in order: `k - 1` chunks of
/// `cs` commands each, then one final chunk holding the rest.
pub proof fn lemma_chunks_reconstruct(parts: Seq<Seq<Seq<char>>>, all: Seq<Seq<char>>, cs: int)
    requires
        parts.len() >= 1,
        cs >= 0,
        (parts.len() - 1) * cs <= all.len(),
        forall|i: int|
            0 <= i < parts.len() - 1 ==> parts[i] == all.subrange(i * cs, (i + 1) * cs),
        parts.last() == all.subrange((parts.len() - 1) * cs, all.len() as int),
    ensures
        concat_all(parts) == all,
{
    let k = parts.len() as int;
    lemma_concat_prefix(parts, all, cs, k - 1);
    assert(concat_all(parts) == concat_all(parts.drop_last()) + parts.last());
    assert(parts.take(k - 1) =~= parts.drop_last());
    assert(all.subrange(0, (k - 1) * cs) + all.subrange((k - 1) * cs, all.len() as int) =~= all);
}

/// Splits the command list into one contiguous chunk per worker: each
/// of the first `worker_count - 1` chunks holds exactly
/// `len / worker_count` commands and the last absorbs the remainder.
/// A worker count of zero, or one larger than the command count, is
/// rejected as `InvalidWorkerCount`; nothing else fails.
pub fn partition(commands: Vec<String>, worker_count: usize) -> (r: Result<
    Vec<Vec<String>>,
    AppError,
>)
    ensures
        r is Err <==> (worker_count == 0 || commands@.len() < worker_count),
        r is Err ==> r->Err_0 == AppError::InvalidWorkerCount,
        r is Ok ==> ({
            let chunks = r->Ok_0;
            let n = commands@.len() as int;
            let k = worker_count as int;
            let cs = n / k;
            &&& chunks@.len() == k
            &&& forall|i: int|
                0 <= i < k - 1 ==> #[trigger] chunk_views(chunks@)[i] == views(
                    commands@,
                ).subrange(i * cs, (i + 1) * cs)
            &&& chunk_views(chunks@)[k - 1] == views(commands@).subrange((k - 1) * cs, n)
            &&& forall|i: int| 0 <= i < k - 1 ==> #[trigger] chunks@[i]@.len() == cs
            &&& chunks@[k - 1]@.len() == n - cs * (k - 1)
            &&& concat_all(chunk_views(chunks@)) == views(commands@)
        }),
{
    if worker_count == 0 {
        return Err(AppError::InvalidWorkerCount);
    }
    let n: usize = commands.len();
    let k: usize = worker_count;
    let cs: usize = n / k;
    if cs == 0 {
        assert(commands@.len() < worker_count) by (nonlinear_arith)
            requires
                k as int >= 1,
                n as int >= 0,
                cs as int == n as int / k as int,
                cs == 0,
                n == commands@.len(),
                k == worker_count,
        ;
        return Err(AppError::InvalidWorkerCount);
    }
    assert(commands@.len() >= worker_count && (k as int) * (cs as int) <= n as int)
        by (nonlinear_arith)
        requires
            k as int >= 1,
            n as int >= 0,
            cs as int == n as int / k as int,
            cs as int >= 1,
            n == commands@.len(),
            k == worker_count,
    ;
    let mut chunks: Vec<Vec<String>> = Vec::new();
    let mut pos: usize = 0;
    let mut i: usize = 0;
    while i < k - 1
        invariant
            k >= 1,
            cs == n as int / k as int,
            cs >= 1,
            n == commands@.len(),
            (k as int) * (cs as int) <= n as int,
            i <= k - 1,
            pos == i * cs,
            pos <= n,
            chunks@.len() == i,
            forall|j: int|
                0 <= j < i ==> #[trigger] chunk_views(chunks@)[j] == views(commands@).subrange(
                    j * cs,
                    (j + 1) * cs,
                ),
            forall|j: int| 0 <= j < i ==> #[trigger] chunks@[j]@.len() == cs,
        decreases k - 1 - i,
    {
        proof {
            assert(pos + cs == (i as int + 1) * (cs as int) && (i as int + 1) * (cs as int)
                <= (k as int) * (cs as int)) by (nonlinear_arith)
                requires
                    pos == i as int * cs as int,
                    0 <= i as int,
                    i as int + 1 <= k as int,
                    cs as int >= 1,
            ;
        }
        let mut chunk: Vec<String> = Vec::new();
        let mut j: usize = 0;
        while j < cs
            invariant
                cs >= 1,
                n == commands@.len(),
                pos + cs <= n,
                j <= cs,
                chunk@.len() == j,
                forall|l: int|
                    0 <= l < j ==> #[trigger] chunk@[l]@ == commands@[pos + l]@,
            decreases cs - j,
        {
            let s = commands[pos + j].clone();
            chunk.push(s);
            j += 1;
        }
        assert(views(chunk@) =~= views(commands@).subrange(
            i as int * cs as int,
            (i as int + 1) * cs as int,
        ));
        let ghost prev = chunks@;
        chunks.push(chunk);
        proof {
            assert(chunk_views(chunks@) =~= chunk_views(prev).push(views(chunk@)));
        }
        pos = pos + cs;
        i += 1;
    }
    let mut chunk: Vec<String> = Vec::new();
    let mut j: usize = pos;
    while j < n
        invariant
            n == commands@.len(),
            pos <= j <= n,
            chunk@.len() == j - pos,
            forall|l: int|
                0 <= l < j - pos ==> #[trigger] chunk@[l]@ == commands@[pos + l]@,
        decreases n - j,
    {
        let s = commands[j].clone();
        chunk.push(s);
        j += 1;
    }
    assert(views(chunk@) =~= views(commands@).subrange(
        (k as int - 1) * cs as int,
        n as int,
    ));
    let ghost prev = chunks@;
    chunks.push(chunk);
    proof {
        assert(chunk_views(chunks@) =~= chunk_views(prev).push(views(chunk@)));
        lemma_chunks_reconstruct(chunk_views(chunks@), views(commands@), cs as int);
    }
    Ok(chunks)
}

} // verus!
